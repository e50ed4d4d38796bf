//! Canonical text and cache keys.
use response_cache::canonical::canonical_json;
use response_cache::key::cache_key;
use response_cache::{Decimal, JsonNumber, JsonObject, JsonValue};
use std::collections::hash_map::DefaultHasher;
use std::hash::{Hash, Hasher};

/// The value of a JSON text.
fn json(text: &str) -> JsonValue {
    convert(&serde_json::from_str(text).unwrap())
}

fn convert(value: &serde_json::Value) -> JsonValue {
    match value {
        serde_json::Value::Null => JsonValue::Null,
        serde_json::Value::Bool(b) => JsonValue::Bool(*b),
        serde_json::Value::Number(n) => JsonValue::Number(if let Some(u) = n.as_u64() {
            JsonNumber::Unsigned(u)
        } else if let Some(i) = n.as_i64() {
            JsonNumber::Signed(i)
        } else {
            JsonNumber::Decimal(Decimal::new(n.to_string()).unwrap())
        }),
        serde_json::Value::String(s) => JsonValue::String(s.clone()),
        serde_json::Value::Array(items) => JsonValue::Array(items.iter().map(convert).collect()),
        serde_json::Value::Object(members) => {
            let mut object = JsonObject::new();
            for (name, member) in members {
                object.insert(name.clone(), convert(member));
            }
            JsonValue::Object(object)
        }
    }
}

/// An object whose members stand in the given order.
fn object(members: &[(&str, JsonValue)]) -> JsonValue {
    let mut object = JsonObject::new();
    for (name, value) in members {
        object.insert((*name).to_owned(), value.clone());
    }
    JsonValue::Object(object)
}

#[test]
fn canonical_json_sorts_keys() {
    let v = object(&[("b", json("2")), ("a", json("1"))]);
    let canonical = canonical_json(&v);
    assert_eq!(canonical, r#"{"a":1,"b":2}"#);
}

#[test]
fn argument_normalization_produces_same_key() {
    let args1 = object(&[("a", json("1")), ("b", json("2"))]);
    let args2 = object(&[("b", json("2")), ("a", json("1"))]);
    let key1 = cache_key("tool", "t", &args1, None);
    let key2 = cache_key("tool", "t", &args2, None);
    assert_eq!(key1, key2);
}

#[test]
fn surface_distinguishes_cache_key() {
    // A tool and a prompt with the same name must not share a
    // cache entry.
    let args = json(r#"{"x": 1}"#);
    let tool_key = cache_key("tool", "shared", &args, None);
    let prompt_key = cache_key("prompt", "shared", &args, None);
    assert_ne!(tool_key, prompt_key);
}

#[test]
fn scalars_are_spelled_as_json() {
    assert_eq!(canonical_json(&json("null")), "null");
    assert_eq!(canonical_json(&json("true")), "true");
    assert_eq!(canonical_json(&json("false")), "false");
    assert_eq!(canonical_json(&json("0")), "0");
    assert_eq!(canonical_json(&json("18446744073709551615")), "18446744073709551615");
    assert_eq!(canonical_json(&json("-9223372036854775808")), "-9223372036854775808");
    assert_eq!(canonical_json(&json("1.5")), "1.5");
    assert_eq!(canonical_json(&json("1.0")), "1.0");
    assert_eq!(canonical_json(&JsonValue::Number(JsonNumber::Signed(12))), "12");
    assert_eq!(canonical_json(&json("[]")), "[]");
    assert_eq!(canonical_json(&json("{}")), "{}");
    assert_eq!(canonical_json(&json(r#""""#)), r#""""#);
}

#[test]
fn a_decimal_is_the_text_of_a_number() {
    for text in ["1.5", "-0.0", "1e16", "2E-7", "1.5e+3"] {
        let decimal = Decimal::new(text.to_owned()).unwrap();
        assert_eq!(decimal.as_str(), text);
        assert_eq!(canonical_json(&JsonValue::Number(JsonNumber::Decimal(decimal))), text);
    }
    for text in [
        "", "1", "-12", ".5", "e5", "1.5 ", "1,5", "NaN", "1.5,2", "\"1.5\"", "1.", "1.e5", "01.5",
        "1.2.3", "1e", "1e+", "-", "-.5", "1.5e3.2", "+1.5", "--1.5", "1-5", "0x1e5",
    ] {
        assert_eq!(Decimal::new(text.to_owned()), None);
    }
}

#[test]
fn strings_are_escaped() {
    let text = "a\"b\\c/\u{8}\t\n\u{c}\r\u{0}\u{1f}\u{7f}\u{e9}\u{1f600}";
    let value = JsonValue::String(text.to_owned());
    assert_eq!(
        canonical_json(&value),
        "\"a\\\"b\\\\c/\\b\\t\\n\\f\\r\\u0000\\u001f\u{7f}\u{e9}\u{1f600}\""
    );
}

#[test]
fn member_names_are_escaped_too() {
    let value = object(&[("a\"b", json("1"))]);
    assert_eq!(canonical_json(&value), r#"{"a\"b":1}"#);
}

#[test]
fn members_are_sorted_at_every_depth() {
    let inner = object(&[("z", json("[3,1,2]")), ("", json("null")), ("y", json("{}"))]);
    let value = object(&[("list", JsonValue::Array(vec![inner, json("true")])), ("a", json("-1"))]);
    assert_eq!(
        canonical_json(&value),
        r#"{"a":-1,"list":[{"":null,"y":{},"z":[3,1,2]},true]}"#
    );
}

#[test]
fn names_are_sorted_by_code_point() {
    let value = object(&[
        ("\u{1f600}", json("6")),
        ("b", json("5")),
        ("aa", json("4")),
        ("a", json("3")),
        ("B", json("2")),
        ("\u{ffff}", json("7")),
        ("1", json("1")),
    ]);
    assert_eq!(
        canonical_json(&value),
        "{\"1\":1,\"B\":2,\"a\":3,\"aa\":4,\"b\":5,\"\u{ffff}\":7,\"\u{1f600}\":6}"
    );
}

#[test]
fn a_name_given_twice_holds_its_last_value() {
    let value = object(&[("a", json("1")), ("b", json("2")), ("a", json("3"))]);
    assert_eq!(canonical_json(&value), r#"{"a":3,"b":2}"#);
}

#[test]
fn members_are_listed_once_each() {
    let mut object = JsonObject::new();
    object.insert("a".to_owned(), json("1"));
    object.insert("b".to_owned(), json("2"));
    object.insert("a".to_owned(), json("3"));
    let members = object.members();
    assert_eq!(members.len(), 2);
    assert!(members.contains(&("a".to_owned(), json("3"))));
    assert!(members.contains(&("b".to_owned(), json("2"))));
    assert_eq!(object.get("a"), Some(&json("3")));
    assert_eq!(object.get("c"), None);
}

#[test]
fn different_values_have_different_texts() {
    let texts = [
        "null", "true", "0", "1", "10", "-1", "1.0", "\"1\"", "\"null\"", "[]", "[1]", "[[1]]",
        "[1,0]", "[10]", "{}", r#"{"a":1}"#, r#"{"a":[1]}"#, r#"[{"a":1}]"#, r#"{"a":1,"b":1}"#,
        r#"{"a":{"b":1}}"#, r#""{\"a\":1}""#,
    ];
    for one in texts {
        for other in texts {
            let equal = canonical_json(&json(one)) == canonical_json(&json(other));
            assert_eq!(equal, one == other);
        }
    }
}

#[test]
fn the_canonical_text_parses_back() {
    let texts = [
        "null", "true", "-7", "18446744073709551615", r#""a\"\\\u0000\u001f\/\u00e9""#, "[]", "{}",
        r#"{"b":[1,{"z":null,"y":"x"},"\n"],"a":{"c":false}}"#, "[1.5,-0.0,1e300]",
    ];
    for text in texts {
        let value = json(text);
        let canonical = canonical_json(&value);
        let parsed: serde_json::Value = serde_json::from_str(&canonical).unwrap();
        assert_eq!(parsed, serde_json::from_str::<serde_json::Value>(text).unwrap());
        assert_eq!(canonical_json(&convert(&parsed)), canonical);
    }
}

#[test]
fn the_key_hashes_the_parts_in_order() {
    let mut hasher = DefaultHasher::new();
    "tool".hash(&mut hasher);
    "search".hash(&mut hasher);
    r#"{"a":1,"b":"x"}"#.hash(&mut hasher);
    let shared = hasher.finish();
    "user@test.com".hash(&mut hasher);
    let scoped = hasher.finish();
    let args = object(&[("b", json(r#""x""#)), ("a", json("1"))]);
    assert_eq!(cache_key("tool", "search", &args, None), shared);
    assert_eq!(cache_key("tool", "search", &args, Some("user@test.com")), scoped);
    assert_ne!(shared, scoped);
}

#[test]
fn no_part_of_a_key_runs_into_the_next() {
    let args = json("{}");
    assert_ne!(cache_key("to", "ol", &args, None), cache_key("too", "l", &args, None));
    assert_ne!(cache_key("tool", "", &args, None), cache_key("", "tool", &args, None));
    assert_ne!(cache_key("tool", "t", &args, None), cache_key("tool", "t", &args, Some("")));
    assert_ne!(
        cache_key("tool", "t", &args, Some("user1")),
        cache_key("tool", "t", &args, Some("user2"))
    );
}
