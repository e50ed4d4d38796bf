//! Which results are recorded, and when they are served.
use response_cache::{
    CacheLookup, Decimal, GateDecision, JsonNumber, JsonObject, JsonValue, PluginContext,
    PluginIdentity, ResponseCacheConfig, ResponseCachePlugin, ToolCacheConfig,
};

/// The value of a JSON text.
fn json(text: &str) -> JsonValue {
    convert(&serde_json::from_str(text).unwrap())
}

fn convert(value: &serde_json::Value) -> JsonValue {
    match value {
        serde_json::Value::Null => JsonValue::Null,
        serde_json::Value::Bool(b) => JsonValue::Bool(*b),
        serde_json::Value::Number(n) => JsonValue::Number(if let Some(u) = n.as_u64() {
            JsonNumber::Unsigned(u)
        } else if let Some(i) = n.as_i64() {
            JsonNumber::Signed(i)
        } else {
            JsonNumber::Decimal(Decimal::new(n.to_string()).unwrap())
        }),
        serde_json::Value::String(s) => JsonValue::String(s.clone()),
        serde_json::Value::Array(items) => JsonValue::Array(items.iter().map(convert).collect()),
        serde_json::Value::Object(members) => {
            let mut object = JsonObject::new();
            for (name, member) in members {
                object.insert(name.clone(), convert(member));
            }
            JsonValue::Object(object)
        }
    }
}

fn test_ctx(tool: &str) -> PluginContext {
    PluginContext {
        surface: "tool".to_owned(),
        tool_name: tool.to_owned(),
        identity: PluginIdentity { subject_id: Some("user@test.com".to_owned()) },
    }
}

fn served(decision: GateDecision) -> Option<JsonValue> {
    match decision {
        GateDecision::Allow { modified_result, .. } => modified_result,
    }
}

fn success_result() -> JsonValue {
    json(r#"{"content": [{"type": "text", "text": "hello"}], "isError": false}"#)
}

const MILLI: u128 = 1_000_000;

#[test]
fn cache_miss_on_first_call() {
    let mut plugin = ResponseCachePlugin::new(ResponseCacheConfig::default());
    let ctx = test_ctx("test_tool");
    let config = json("{}");
    let result = plugin.evaluate_pre(&ctx, &json(r#"{"q": "test"}"#), None, &config);
    assert!(result.is_allow());
    // No modified_result on cache miss
    let GateDecision::Allow { modified_result, .. } = result;
    assert!(modified_result.is_none());
}

#[test]
fn cache_hit_returns_cached_result() {
    let mut plugin = ResponseCachePlugin::new(ResponseCacheConfig::default());
    let ctx = test_ctx("test_tool");
    let config = json("{}");
    let args = json(r#"{"q": "test"}"#);
    let result = success_result();

    // Populate cache via post_dispatch
    plugin.evaluate_post(&ctx, &args, &result, 50, &config);

    // Second call should be a cache hit
    let decision = plugin.evaluate_pre(&ctx, &args, None, &config);
    let GateDecision::Allow { modified_result, .. } = decision;
    assert!(modified_result.is_some());
    assert_eq!(modified_result.unwrap(), result);
}

#[test]
fn ttl_expiry_causes_cache_miss() {
    let mut plugin = ResponseCachePlugin::new(ResponseCacheConfig {
        default_ttl_ms: 0, // immediate expiry (0 = no caching)
        ..Default::default()
    });
    let ctx = test_ctx("test_tool");
    let config = json("{}");
    let args = json(r#"{"q": "test"}"#);

    // With ttl=0, entries are not cached
    plugin.evaluate_post(&ctx, &args, &success_result(), 50, &config);
    let decision = plugin.evaluate_pre(&ctx, &args, None, &config);
    let GateDecision::Allow { modified_result, .. } = decision;
    assert!(modified_result.is_none());
}

#[test]
fn different_args_different_entries() {
    let mut plugin = ResponseCachePlugin::new(ResponseCacheConfig::default());
    let ctx = test_ctx("test_tool");
    let config = json("{}");

    let args1 = json(r#"{"q": "hello"}"#);
    let args2 = json(r#"{"q": "world"}"#);
    let result = success_result();

    plugin.evaluate_post(&ctx, &args1, &result, 50, &config);

    // Different args: cache miss
    let decision = plugin.evaluate_pre(&ctx, &args2, None, &config);
    let GateDecision::Allow { modified_result, .. } = decision;
    assert!(modified_result.is_none());
}

#[test]
fn per_identity_isolation() {
    let mut plugin = ResponseCachePlugin::new(ResponseCacheConfig {
        cache_scope: "per_identity".to_owned(),
        ..Default::default()
    });
    let config = json("{}");
    let args = json(r#"{"q": "test"}"#);
    let result = success_result();

    let mut ctx1 = test_ctx("test_tool");
    ctx1.identity.subject_id = Some("user1@test.com".to_owned());

    let mut ctx2 = test_ctx("test_tool");
    ctx2.identity.subject_id = Some("user2@test.com".to_owned());

    // Cache for user1
    plugin.evaluate_post(&ctx1, &args, &result, 50, &config);

    // user2 should miss
    let decision = plugin.evaluate_pre(&ctx2, &args, None, &config);
    assert!(served(decision).is_none());

    // user1 should hit
    let decision = plugin.evaluate_pre(&ctx1, &args, None, &config);
    assert!(served(decision).is_some());
}

#[test]
fn errors_not_cached() {
    let mut plugin = ResponseCachePlugin::new(ResponseCacheConfig::default());
    let ctx = test_ctx("test_tool");
    let config = json("{}");
    let args = json(r#"{"q": "test"}"#);
    let error_result = json(r#"{"content": [], "isError": true}"#);

    plugin.evaluate_post(&ctx, &args, &error_result, 50, &config);

    // Should not be cached
    let decision = plugin.evaluate_pre(&ctx, &args, None, &config);
    assert!(served(decision).is_none());
}

#[test]
fn no_cache_meta_flag() {
    let mut plugin = ResponseCachePlugin::new(ResponseCacheConfig::default());
    let ctx = test_ctx("test_tool");
    let config = json("{}");
    let args = json(r#"{"q": "test"}"#);

    // Populate cache
    plugin.evaluate_post(&ctx, &args, &success_result(), 50, &config);

    // With no_cache flag, should skip cache
    let meta = json(r#"{"no_cache": true}"#);
    let decision = plugin.evaluate_pre(&ctx, &args, Some(&meta), &config);
    assert!(served(decision).is_none());
}

#[test]
fn a_hit_says_where_it_comes_from() {
    let mut plugin = ResponseCachePlugin::new(ResponseCacheConfig::default());
    let ctx = test_ctx("test_tool");
    let args = json(r#"{"q": "test"}"#);
    plugin.evaluate_post_at(&ctx, &args, &success_result(), 0);
    let (decision, lookup) = plugin.evaluate_pre_at(&ctx, &args, None, 1);
    assert_eq!(lookup, CacheLookup::Hit);
    assert_eq!(
        decision,
        GateDecision::Allow {
            modified_arguments: None,
            modified_result: Some(success_result()),
            metadata: Some(json(r#"{"cache": "hit"}"#)),
        }
    );
}

#[test]
fn recording_a_result_answers_with_a_plain_allow() {
    let mut plugin = ResponseCachePlugin::new(ResponseCacheConfig::default());
    let ctx = test_ctx("test_tool");
    let config = json("{}");
    let decision = plugin.evaluate_post(&ctx, &json("{}"), &success_result(), 50, &config);
    assert_eq!(decision, GateDecision::allow());
}

#[test]
fn an_entry_lives_until_its_ttl_is_reached() {
    let mut plugin = ResponseCachePlugin::new(ResponseCacheConfig {
        default_ttl_ms: 1000,
        ..Default::default()
    });
    let ctx = test_ctx("test_tool");
    let args = json(r#"{"q": "test"}"#);
    let start = 7 * MILLI;
    plugin.evaluate_post_at(&ctx, &args, &success_result(), start);

    let last = start + 1000 * MILLI - 1;
    let (decision, lookup) = plugin.evaluate_pre_at(&ctx, &args, None, last);
    assert_eq!(lookup, CacheLookup::Hit);
    assert_eq!(served(decision), Some(success_result()));

    let (decision, lookup) = plugin.evaluate_pre_at(&ctx, &args, None, start + 1000 * MILLI);
    assert_eq!(lookup, CacheLookup::Miss);
    assert_eq!(decision, GateDecision::allow());
}

#[test]
fn an_expired_entry_is_dropped_on_lookup() {
    let mut plugin = ResponseCachePlugin::new(ResponseCacheConfig {
        default_ttl_ms: 10,
        ..Default::default()
    });
    let ctx = test_ctx("test_tool");
    let args = json("[]");
    plugin.evaluate_post_at(&ctx, &args, &success_result(), 0);
    assert_eq!(plugin.evaluate_pre_at(&ctx, &args, None, 10 * MILLI).1, CacheLookup::Miss);
    // It would be live at this time, had it not been dropped.
    assert_eq!(plugin.evaluate_pre_at(&ctx, &args, None, 5 * MILLI).1, CacheLookup::Miss);
}

#[test]
fn a_new_result_replaces_the_old_one_and_starts_its_ttl_anew() {
    let mut plugin = ResponseCachePlugin::new(ResponseCacheConfig {
        default_ttl_ms: 10,
        ..Default::default()
    });
    let ctx = test_ctx("test_tool");
    let args = json("null");
    plugin.evaluate_post_at(&ctx, &args, &json(r#""old""#), 0);
    plugin.evaluate_post_at(&ctx, &args, &json(r#""new""#), 5 * MILLI);
    let (decision, _) = plugin.evaluate_pre_at(&ctx, &args, None, 14 * MILLI);
    assert_eq!(served(decision), Some(json(r#""new""#)));
    assert_eq!(plugin.evaluate_pre_at(&ctx, &args, None, 15 * MILLI).1, CacheLookup::Miss);
}

#[test]
fn argument_order_makes_no_difference_to_a_hit() {
    let mut plugin = ResponseCachePlugin::new(ResponseCacheConfig::default());
    let ctx = test_ctx("test_tool");
    let mut inner1 = JsonObject::new();
    inner1.insert("a".to_owned(), json("1"));
    inner1.insert("b".to_owned(), json("2"));
    let mut inner2 = JsonObject::new();
    inner2.insert("b".to_owned(), json("2"));
    inner2.insert("a".to_owned(), json("1"));
    let args1 = JsonValue::Array(vec![JsonValue::Object(inner1)]);
    let args2 = JsonValue::Array(vec![JsonValue::Object(inner2)]);
    assert_ne!(args1, args2);
    plugin.evaluate_post_at(&ctx, &args1, &success_result(), 0);
    assert_eq!(plugin.evaluate_pre_at(&ctx, &args2, None, 1).1, CacheLookup::Hit);
}

#[test]
fn a_prompt_does_not_hit_the_entry_of_a_tool() {
    let mut plugin = ResponseCachePlugin::new(ResponseCacheConfig::default());
    let tool = test_ctx("shared");
    let mut prompt = test_ctx("shared");
    prompt.surface = "prompt".to_owned();
    let args = json(r#"{"x": 1}"#);
    plugin.evaluate_post_at(&tool, &args, &success_result(), 0);
    assert_eq!(plugin.evaluate_pre_at(&prompt, &args, None, 1).1, CacheLookup::Miss);
    assert_eq!(plugin.evaluate_pre_at(&tool, &args, None, 1).1, CacheLookup::Hit);
}

#[test]
fn only_true_marks_an_error() {
    let mut plugin = ResponseCachePlugin::new(ResponseCacheConfig::default());
    let texts = [r#"{"isError": "true"}"#, r#"{"isError": 1}"#, r#"{"isError": null}"#, "[]", "7"];
    for text in texts {
        let ctx = test_ctx(text);
        plugin.evaluate_post_at(&ctx, &json("{}"), &json(text), 0);
        let (decision, _) = plugin.evaluate_pre_at(&ctx, &json("{}"), None, 1);
        assert_eq!(served(decision), Some(json(text)));
    }
}

#[test]
fn an_error_leaves_an_earlier_result() {
    let mut plugin = ResponseCachePlugin::new(ResponseCacheConfig::default());
    let ctx = test_ctx("test_tool");
    let args = json("{}");
    plugin.evaluate_post_at(&ctx, &args, &success_result(), 0);
    plugin.evaluate_post_at(&ctx, &args, &json(r#"{"isError": true}"#), 1);
    let (decision, _) = plugin.evaluate_pre_at(&ctx, &args, None, 2);
    assert_eq!(served(decision), Some(success_result()));
}

#[test]
fn only_true_opts_out() {
    let mut plugin = ResponseCachePlugin::new(ResponseCacheConfig::default());
    let ctx = test_ctx("test_tool");
    let args = json("{}");
    plugin.evaluate_post_at(&ctx, &args, &success_result(), 0);
    for text in [r#"{"no_cache": false}"#, r#"{"no_cache": "true"}"#, "{}", "true", "null"] {
        let meta = json(text);
        let (_, lookup) = plugin.evaluate_pre_at(&ctx, &args, Some(&meta), 1);
        assert_eq!(lookup, CacheLookup::Hit);
    }
    let meta = json(r#"{"no_cache": true}"#);
    let (decision, lookup) = plugin.evaluate_pre_at(&ctx, &args, Some(&meta), 1);
    assert_eq!(lookup, CacheLookup::OptedOut);
    assert_eq!(decision, GateDecision::allow());
    // The entry is still there.
    assert_eq!(plugin.evaluate_pre_at(&ctx, &args, None, 1).1, CacheLookup::Hit);
}

#[test]
fn any_other_scope_is_shared() {
    for scope in ["shared", "per-identity", "Per_Identity", ""] {
        let mut plugin = ResponseCachePlugin::new(ResponseCacheConfig {
            cache_scope: scope.to_owned(),
            ..Default::default()
        });
        let one = test_ctx("test_tool");
        let mut other = test_ctx("test_tool");
        other.identity.subject_id = None;
        let args = json("{}");
        plugin.evaluate_post_at(&one, &args, &success_result(), 0);
        assert_eq!(plugin.evaluate_pre_at(&other, &args, None, 1).1, CacheLookup::Hit);
        assert_eq!(plugin.identity_key(&one), None);
    }
}

#[test]
fn anonymous_callers_share_entries_with_each_other_alone() {
    let mut plugin = ResponseCachePlugin::new(ResponseCacheConfig {
        cache_scope: "per_identity".to_owned(),
        ..Default::default()
    });
    let known = test_ctx("test_tool");
    let mut anonymous = test_ctx("test_tool");
    anonymous.identity.subject_id = None;
    let args = json("{}");
    plugin.evaluate_post_at(&anonymous, &args, &success_result(), 0);
    assert_eq!(plugin.evaluate_pre_at(&anonymous, &args, None, 1).1, CacheLookup::Hit);
    assert_eq!(plugin.evaluate_pre_at(&known, &args, None, 1).1, CacheLookup::Miss);
    assert_eq!(plugin.identity_key(&anonymous), None);
    assert_eq!(plugin.identity_key(&known), Some("user@test.com".to_owned()));
}

fn rule(patterns: &[&str], ttl_ms: u64) -> ToolCacheConfig {
    ToolCacheConfig { tools: patterns.iter().map(|p| (*p).to_owned()).collect(), ttl_ms }
}

#[test]
fn the_first_matching_rule_gives_the_ttl() {
    let plugin = ResponseCachePlugin::new(ResponseCacheConfig {
        per_tool: vec![
            rule(&["catalog.*"], 60000),
            rule(&["live.*", "*.stream"], 0),
            rule(&["catalog.hot", "*.hot"], 5),
        ],
        ..Default::default()
    });
    assert_eq!(plugin.ttl_for("catalog.list"), 60000);
    assert_eq!(plugin.ttl_for("catalog.hot"), 60000);
    assert_eq!(plugin.ttl_for("live.feed"), 0);
    assert_eq!(plugin.ttl_for("video.stream"), 0);
    assert_eq!(plugin.ttl_for("video.hot"), 5);
    assert_eq!(plugin.ttl_for("other"), 300000);
}

#[test]
fn a_zero_ttl_rule_turns_caching_off() {
    let mut plugin = ResponseCachePlugin::new(ResponseCacheConfig {
        per_tool: vec![rule(&["live.*"], 0)],
        ..Default::default()
    });
    let ctx = test_ctx("live.feed");
    let args = json("{}");
    plugin.evaluate_post_at(&ctx, &args, &success_result(), 0);
    let (decision, lookup) = plugin.evaluate_pre_at(&ctx, &args, None, 1);
    assert_eq!(lookup, CacheLookup::Disabled);
    assert_eq!(decision, GateDecision::allow());
}

#[test]
fn a_short_ttl_runs_out_on_the_clock() {
    let mut plugin = ResponseCachePlugin::new(ResponseCacheConfig {
        default_ttl_ms: 1,
        ..Default::default()
    });
    let ctx = test_ctx("test_tool");
    let (args, config) = (json("{}"), json("{}"));
    plugin.evaluate_post(&ctx, &args, &success_result(), 50, &config);
    let waiting = std::time::Instant::now();
    while waiting.elapsed().as_millis() < 5 {}
    let (decision, lookup) = plugin.evaluate_pre_inner(&ctx, &args, None);
    assert_eq!(lookup, CacheLookup::Miss);
    assert_eq!(decision, GateDecision::allow());
}

#[test]
fn a_limit_of_zero_turns_caching_off() {
    let mut plugin = ResponseCachePlugin::new(ResponseCacheConfig {
        max_entries: 0,
        ..Default::default()
    });
    let ctx = test_ctx("test_tool");
    let config = json("{}");
    let result = json(r#"{"content": []}"#);
    plugin.evaluate_post(&ctx, &json("{}"), &result, 50, &config);
    let decision = plugin.evaluate_pre(&ctx, &json("{}"), None, &config);
    assert_eq!(decision, GateDecision::allow());
}

#[test]
fn a_write_says_under_which_ttl() {
    let mut plugin = ResponseCachePlugin::new(ResponseCacheConfig {
        per_tool: vec![rule(&["live.*"], 0), rule(&["hot"], 5)],
        ..Default::default()
    });
    let args = json("{}");
    let result = success_result();
    let error = json(r#"{"isError": true}"#);
    assert_eq!(plugin.evaluate_post_at(&test_ctx("hot"), &args, &result, 0).1, Some(5));
    assert_eq!(plugin.evaluate_post_at(&test_ctx("cold"), &args, &result, 0).1, Some(300000));
    assert_eq!(plugin.evaluate_post_at(&test_ctx("live.a"), &args, &result, 0).1, None);
    assert_eq!(plugin.evaluate_post_at(&test_ctx("hot"), &args, &error, 0).1, None);
    assert_eq!(plugin.evaluate_post_inner(&test_ctx("hot"), &args, &result).1, Some(5));
    let mut none = ResponseCachePlugin::new(ResponseCacheConfig {
        max_entries: 0,
        ..Default::default()
    });
    assert_eq!(none.evaluate_post_at(&test_ctx("hot"), &args, &result, 0).1, None);
}

#[test]
fn the_latest_result_is_served_after_many_calls() {
    let mut plugin = ResponseCachePlugin::new(ResponseCacheConfig {
        default_ttl_ms: 100,
        max_entries: 5,
        ..Default::default()
    });
    let args = json("{}");
    plugin.evaluate_post_at(&test_ctx("a"), &args, &json("1"), 0);
    plugin.evaluate_post_at(&test_ctx("b"), &args, &json("2"), MILLI);
    plugin.evaluate_post_at(&test_ctx("a"), &args, &json("3"), 2 * MILLI);
    plugin.evaluate_post_at(&test_ctx("a"), &args, &json(r#"{"isError": true}"#), 3 * MILLI);
    plugin.evaluate_pre_at(&test_ctx("c"), &args, None, 4 * MILLI);
    plugin.evaluate_post_at(&test_ctx("c"), &args, &json("4"), 5 * MILLI);
    let (decision, _) = plugin.evaluate_pre_at(&test_ctx("a"), &args, None, 101 * MILLI);
    assert_eq!(served(decision), Some(json("3")));
    let (decision, _) = plugin.evaluate_pre_at(&test_ctx("a"), &args, None, 102 * MILLI);
    assert_eq!(served(decision), None);
}

#[test]
fn a_subject_is_never_served_the_results_of_others() {
    let subjects = [Some("one"), Some("two"), None];
    let args = json("{}");
    for reader in subjects {
        let mut plugin = ResponseCachePlugin::new(ResponseCacheConfig {
            cache_scope: "per_identity".to_owned(),
            ..Default::default()
        });
        let mut ctx = test_ctx("test_tool");
        for writer in subjects {
            if writer != reader {
                ctx.identity.subject_id = writer.map(|id| id.to_owned());
                plugin.evaluate_post_at(&ctx, &args, &success_result(), 0);
            }
        }
        ctx.identity.subject_id = reader.map(|id| id.to_owned());
        assert_eq!(plugin.evaluate_pre_at(&ctx, &args, None, 1).1, CacheLookup::Miss);
    }
}

#[test]
fn hits_and_misses_are_counted() {
    assert_eq!(CacheLookup::Hit.counted(), Some("hit"));
    assert_eq!(CacheLookup::Miss.counted(), Some("miss"));
    assert_eq!(CacheLookup::OptedOut.counted(), None);
    assert_eq!(CacheLookup::Disabled.counted(), None);
}

#[test]
fn an_evaluation_is_timed_whatever_it_comes_to() {
    let mut plugin = ResponseCachePlugin::new(ResponseCacheConfig::default());
    let ctx = test_ctx("test_tool");
    let args = json("{}");
    let observed = plugin.evaluate_pre_observed(&ctx, &args, None);
    assert_eq!(observed.lookup, CacheLookup::Miss);
    assert!(observed.elapsed_ms < 10_000);
    plugin.evaluate_post_inner(&ctx, &args, &success_result());
    let observed = plugin.evaluate_pre_observed(&ctx, &args, None);
    assert_eq!(observed.lookup, CacheLookup::Hit);
    assert_eq!(served(observed.decision), Some(success_result()));
    assert!(observed.elapsed_ms < 10_000);
}

#[test]
fn a_result_outlives_many_other_results() {
    let mut plugin = ResponseCachePlugin::new(ResponseCacheConfig {
        default_ttl_ms: 100,
        max_entries: 2,
        ..Default::default()
    });
    let args = json("{}");
    // More results than the limit: the entry of "a" is never the oldest when room is made.
    plugin.evaluate_post_at(&test_ctx("b"), &args, &json("0"), 0);
    plugin.evaluate_post_at(&test_ctx("a"), &args, &json("1"), 1);
    plugin.evaluate_post_at(&test_ctx("c"), &args, &json("2"), 2);
    let (decision, _) = plugin.evaluate_pre_at(&test_ctx("a"), &args, None, 3);
    assert_eq!(served(decision), Some(json("1")));
    // Now it is.
    plugin.evaluate_post_at(&test_ctx("d"), &args, &json("3"), 4);
    assert_eq!(plugin.evaluate_pre_at(&test_ctx("a"), &args, None, 5).1, CacheLookup::Miss);
}

#[test]
fn evaluations_leave_the_settings_alone() {
    let mut plugin = ResponseCachePlugin::new(ResponseCacheConfig {
        max_entries: 1,
        per_tool: vec![rule(&["a*"], 7)],
        ..Default::default()
    });
    let settings = format!("{:?} {:?}", plugin.config(), plugin.manifest());
    for (now, tool) in ["abc", "b", "abc"].iter().enumerate() {
        let ctx = test_ctx(tool);
        plugin.evaluate_pre_at(&ctx, &json("{}"), None, now as u128);
        plugin.evaluate_post_at(&ctx, &json("{}"), &success_result(), now as u128);
    }
    assert_eq!(format!("{:?} {:?}", plugin.config(), plugin.manifest()), settings);
}

#[test]
fn the_manifest_introduces_a_tool_gate() {
    let plugin = ResponseCachePlugin::new(ResponseCacheConfig::default());
    let manifest = plugin.manifest();
    assert_eq!(manifest.id, "dev.mcpg.response-cache");
    assert_eq!(manifest.version, "0.1.0");
    assert_eq!(manifest.name, "Response Cache");
    assert_eq!(manifest.protocol_version, "1.0");
    assert_eq!(manifest.module_path_prefix, "response_cache");
    assert!(manifest.license.is_none());
    assert!(manifest.backend_profile.is_none());
    assert!(manifest.required_capabilities.is_empty());
    assert!(manifest.tags.is_empty());
    assert!(manifest.provides.is_empty());
    assert!(manifest.provides_schemes.is_empty());
}
