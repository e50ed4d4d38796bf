//! Configuration, read from JSON.
use response_cache::decode::read_config;
use response_cache::{
    Decimal, JsonNumber, JsonObject, JsonValue, ResponseCacheConfig, ResponseCachePlugin,
};
use serde::de::{Error, Unexpected};

/// The value of a JSON text.
fn json(text: &str) -> JsonValue {
    convert(&serde_json::from_str(text).unwrap())
}

fn convert(value: &serde_json::Value) -> JsonValue {
    match value {
        serde_json::Value::Null => JsonValue::Null,
        serde_json::Value::Bool(b) => JsonValue::Bool(*b),
        serde_json::Value::Number(n) => JsonValue::Number(if let Some(u) = n.as_u64() {
            JsonNumber::Unsigned(u)
        } else if let Some(i) = n.as_i64() {
            JsonNumber::Signed(i)
        } else {
            JsonNumber::Decimal(Decimal::new(n.to_string()).unwrap())
        }),
        serde_json::Value::String(s) => JsonValue::String(s.clone()),
        serde_json::Value::Array(items) => JsonValue::Array(items.iter().map(convert).collect()),
        serde_json::Value::Object(members) => {
            let mut object = JsonObject::new();
            for (name, member) in members {
                object.insert(name.clone(), convert(member));
            }
            JsonValue::Object(object)
        }
    }
}

fn error_of(text: &str) -> String {
    let message = read_config(&json(text)).unwrap_err();
    assert_eq!(ResponseCachePlugin::from_config(&json(text)).err().unwrap(), message);
    message
}

/// The message of a `serde_json` error.
fn said(error: serde_json::Error) -> String {
    format!("{error}")
}

const CONFIG_FIELDS: &[&str] = &["default_ttl_ms", "max_entries", "per_tool", "cache_scope"];
const RULE_FIELDS: &[&str] = &["tools", "ttl_ms"];

fn assert_defaults(config: &ResponseCacheConfig) {
    assert_eq!(config.default_ttl_ms, 300000);
    assert_eq!(config.max_entries, 10_000);
    assert_eq!(config.cache_scope, "shared");
    assert!(config.per_tool.is_empty());
}

#[test]
fn empty_config_yields_defaults() {
    // An empty / absent config block opts out (not a typo) and must
    // still produce the documented defaults.
    let plugin = ResponseCachePlugin::from_config_json(Some(&json("{}"))).ok().unwrap();
    let default = ResponseCacheConfig::default();
    assert_eq!(plugin.config().default_ttl_ms, default.default_ttl_ms);
    assert_eq!(plugin.config().max_entries, default.max_entries);
    assert_eq!(plugin.config().cache_scope, default.cache_scope);
    assert!(plugin.config().per_tool.is_empty());
}

#[test]
fn unknown_top_level_key_is_rejected() {
    // A stray / typo'd / renamed config key must become a parse
    // error so the plugin fails closed at boot
    // rather than silently ignoring the bad key.
    let cfg = json(
        r#"{
            "default_ttl_ms": 1000,
            "max_enries": 5
        }"#,
    );
    assert!(ResponseCachePlugin::from_config(&cfg).is_err());
}

#[test]
fn unknown_per_tool_key_is_rejected() {
    // Nested ToolCacheConfig is also strict.
    let cfg = json(
        r#"{
            "per_tool": [{
                "tools": ["foo_*"],
                "ttl_ms": 1000,
                "ttl": 1000
            }]
        }"#,
    );
    assert!(ResponseCachePlugin::from_config(&cfg).is_err());
}

#[test]
fn the_default_is_the_documented_one() {
    assert_defaults(&ResponseCacheConfig::default());
}

#[test]
fn an_absent_block_yields_defaults() {
    assert_defaults(ResponseCachePlugin::from_config_json(None).ok().unwrap().config());
    let empty = json("null");
    assert_defaults(ResponseCachePlugin::from_config_json(Some(&empty)).ok().unwrap().config());
}

#[test]
fn a_malformed_block_yields_no_plugin() {
    for text in [r#""not json""#, "7", "true", r#"{"ttl": 1}"#, r#"{"max_entries": "5"}"#] {
        assert!(ResponseCachePlugin::from_config_json(Some(&json(text))).is_err());
    }
    // Outside a block, `null` is no configuration.
    assert!(ResponseCachePlugin::from_config(&json("null")).is_err());
}

#[test]
fn every_field_is_read() {
    let cfg = json(
        r#"{
            "default_ttl_ms": 300000,
            "max_entries": 7,
            "cache_scope": "per_identity",
            "per_tool": [
                {"tools": ["catalog.*"], "ttl_ms": 60000},
                {"tools": ["live.*", "*.stream"], "ttl_ms": 0}
            ]
        }"#,
    );
    let plugin = ResponseCachePlugin::from_config(&cfg).ok().unwrap();
    let config = plugin.config();
    assert_eq!(config.default_ttl_ms, 300000);
    assert_eq!(config.max_entries, 7);
    assert_eq!(config.cache_scope, "per_identity");
    assert_eq!(config.per_tool.len(), 2);
    assert_eq!(config.per_tool[0].tools, vec!["catalog.*"]);
    assert_eq!(config.per_tool[0].ttl_ms, 60000);
    assert_eq!(config.per_tool[1].tools, vec!["live.*", "*.stream"]);
    assert_eq!(config.per_tool[1].ttl_ms, 0);
}

#[test]
fn absent_fields_take_their_defaults() {
    let config = read_config(&json(r#"{"default_ttl_ms": 5}"#)).unwrap();
    assert_eq!(config.default_ttl_ms, 5);
    assert_eq!(config.max_entries, 10_000);
    assert_eq!(config.cache_scope, "shared");
    assert!(config.per_tool.is_empty());
}

#[test]
fn a_list_gives_the_first_fields() {
    assert_defaults(&read_config(&json("[]")).unwrap());
    let config = read_config(&json(r#"[9, 8, [[["a"], 7]], "per_identity"]"#)).unwrap();
    assert_eq!(config.default_ttl_ms, 9);
    assert_eq!(config.max_entries, 8);
    assert_eq!(config.per_tool[0].tools, vec!["a"]);
    assert_eq!(config.per_tool[0].ttl_ms, 7);
    assert_eq!(config.cache_scope, "per_identity");
    assert_eq!(
        error_of("[1, 2, [], \"shared\", 5]"),
        said(Error::invalid_length(5, &"fewer elements in array"))
    );
    assert_eq!(
        error_of(r#"[1, 2, [[["a"], 7, 8]]]"#),
        "invalid length 3, expected fewer elements in array"
    );
    // An item with a fault counts before the length.
    assert_eq!(
        error_of(r#"[1, 2, [], true, 5]"#),
        said(Error::invalid_type(Unexpected::Bool(true), &"a string"))
    );
    assert_eq!(
        error_of("[1, 2, [[]]]"),
        "invalid length 0, expected struct ToolCacheConfig with 2 elements"
    );
    assert_eq!(
        error_of("[1, 2, [[[]]]]"),
        said(Error::invalid_length(1, &"struct ToolCacheConfig with 2 elements"))
    );
}

#[test]
fn what_is_no_record_is_rejected() {
    let expected = &"struct ResponseCacheConfig";
    assert_eq!(error_of("null"), said(Error::invalid_type(Unexpected::Unit, expected)));
    assert_eq!(error_of("null"), "invalid type: null, expected struct ResponseCacheConfig");
    assert_eq!(error_of("true"), said(Error::invalid_type(Unexpected::Bool(true), expected)));
    assert_eq!(error_of("false"), said(Error::invalid_type(Unexpected::Bool(false), expected)));
    assert_eq!(error_of("7"), said(Error::invalid_type(Unexpected::Unsigned(7), expected)));
    assert_eq!(error_of("-7"), said(Error::invalid_type(Unexpected::Signed(-7), expected)));
    assert_eq!(error_of("1.5"), said(Error::invalid_type(Unexpected::Float(1.5), expected)));
    assert_eq!(
        error_of(r#""a\"b\n""#),
        said(Error::invalid_type(Unexpected::Str("a\"b\n"), expected))
    );
    assert_eq!(
        error_of(r#"{"per_tool": [7]}"#),
        "invalid type: integer `7`, expected struct ToolCacheConfig"
    );
}

#[test]
fn an_unknown_field_is_named() {
    assert_eq!(
        error_of(r#"{"default_ttl_ms": 1000, "max_enries": 5}"#),
        said(Error::unknown_field("max_enries", CONFIG_FIELDS))
    );
    assert_eq!(
        error_of(r#"{"max_enries": 5}"#),
        "unknown field `max_enries`, expected one of `default_ttl_ms`, `max_entries`, `per_tool`, \
         `cache_scope`"
    );
    assert_eq!(
        error_of(r#"{"per_tool": [{"tools": ["foo_*"], "ttl_ms": 1000, "ttl": 1000}]}"#),
        said(Error::unknown_field("ttl", RULE_FIELDS))
    );
    assert_eq!(
        error_of(r#"{"per_tool": [{"ttl": 1000}]}"#),
        "unknown field `ttl`, expected `tools` or `ttl_ms`"
    );
    assert_eq!(
        error_of(r#"{"x at line 1 column 2": 1}"#),
        said(Error::unknown_field("x at line 1 column 2", CONFIG_FIELDS))
    );
}

#[test]
fn a_rule_needs_both_fields() {
    assert_eq!(error_of(r#"{"per_tool": [{"ttl_ms": 1}]}"#), said(Error::missing_field("tools")));
    assert_eq!(error_of(r#"{"per_tool": [{"tools": []}]}"#), "missing field `ttl_ms`");
    assert_eq!(error_of(r#"{"per_tool": [{}]}"#), "missing field `tools`");
}

#[test]
fn of_several_faults_the_first_by_name_counts() {
    // The unknown field stands behind the invalid one.
    assert_eq!(
        error_of(r#"{"zzz": 1, "max_entries": "5"}"#),
        said(Error::invalid_type(Unexpected::Str("5"), &"usize"))
    );
    // And here before it.
    assert_eq!(
        error_of(r#"{"max_entries": "5", "aaa": 1}"#),
        said(Error::unknown_field("aaa", CONFIG_FIELDS))
    );
    // Fields in the order of their names, not of their declaration.
    assert_eq!(
        error_of(r#"{"default_ttl_ms": null, "cache_scope": 1}"#),
        said(Error::invalid_type(Unexpected::Unsigned(1), &"a string"))
    );
    // A fault in a member counts before a missing one.
    assert_eq!(
        error_of(r#"{"per_tool": [{"ttl_ms": -1}]}"#),
        said(Error::invalid_value(Unexpected::Signed(-1), &"u64"))
    );
    // Rules and patterns in the order of their lists.
    assert_eq!(
        error_of(r#"{"per_tool": [{"tools": ["a", true, 1], "ttl_ms": 1}, 7]}"#),
        said(Error::invalid_type(Unexpected::Bool(true), &"a string"))
    );
}

#[test]
fn a_value_of_another_type_is_rejected() {
    let cases = [
        (r#"{"default_ttl_ms": -1}"#, "invalid value: integer `-1`, expected u64"),
        (r#"{"default_ttl_ms": 1.0}"#, "invalid type: floating point `1.0`, expected u64"),
        (r#"{"default_ttl_ms": null}"#, "invalid type: null, expected u64"),
        (r#"{"max_entries": "5"}"#, "invalid type: string \"5\", expected usize"),
        (r#"{"max_entries": -5}"#, "invalid value: integer `-5`, expected usize"),
        (r#"{"per_tool": {}}"#, "invalid type: map, expected a sequence"),
        (r#"{"cache_scope": []}"#, "invalid type: sequence, expected a string"),
        (
            r#"{"per_tool": [{"tools": "a", "ttl_ms": 1}]}"#,
            "invalid type: string \"a\", expected a sequence",
        ),
        (
            r#"{"per_tool": [{"tools": [1], "ttl_ms": 1}]}"#,
            "invalid type: integer `1`, expected a string",
        ),
        (
            r#"{"per_tool": [{"tools": [], "ttl_ms": false}]}"#,
            "invalid type: boolean `false`, expected u64",
        ),
    ];
    for (text, message) in cases {
        assert_eq!(error_of(text), message);
    }
    assert_eq!(
        error_of(r#"{"default_ttl_ms": 1e30}"#),
        said(Error::invalid_type(Unexpected::Float(1e30), &"u64"))
    );
}

#[test]
fn the_largest_ttl_is_read() {
    let config = read_config(&json(r#"{"default_ttl_ms": 18446744073709551615}"#)).unwrap();
    assert_eq!(config.default_ttl_ms, u64::MAX);
}

#[test]
fn a_copy_is_equal() {
    let config = read_config(&json(r#"[9, 8, [[["a", "b"], 7]], "x"]"#)).unwrap();
    let copy = config.clone();
    assert_eq!(format!("{:?}", copy), format!("{:?}", config));
}
