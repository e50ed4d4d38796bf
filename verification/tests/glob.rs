//! Glob patterns.
use response_cache::glob::glob_match;

#[test]
fn a_star_stands_for_any_run() {
    assert!(glob_match("*", ""));
    assert!(glob_match("*", "anything"));
    assert!(glob_match("catalog.*", "catalog."));
    assert!(glob_match("catalog.*", "catalog.list.all"));
    assert!(!glob_match("catalog.*", "catalog"));
    assert!(!glob_match("catalog.*", "my.catalog.list"));
    assert!(glob_match("*.stream", "video.stream"));
    assert!(!glob_match("*.stream", "video.streams"));
    assert!(glob_match("a*b*c", "a-b-b-c"));
    assert!(glob_match("a*b*c", "abc"));
    assert!(!glob_match("a*b*c", "acb"));
    assert!(glob_match("**", "x"));
}

#[test]
fn a_question_mark_stands_for_exactly_one() {
    assert!(glob_match("?", "x"));
    assert!(glob_match("?", "\u{1f600}"));
    assert!(!glob_match("?", ""));
    assert!(!glob_match("?", "xy"));
    assert!(glob_match("a?c*", "abcd"));
    assert!(!glob_match("a?c", "ac"));
    assert!(glob_match("*?", "x"));
    assert!(!glob_match("*?", ""));
}

#[test]
fn other_characters_stand_for_themselves() {
    assert!(glob_match("", ""));
    assert!(!glob_match("", "x"));
    assert!(glob_match("tool", "tool"));
    assert!(!glob_match("tool", "Tool"));
    assert!(!glob_match("tool", "tools"));
    assert!(glob_match("[ab].{c}", "[ab].{c}"));
    assert!(!glob_match("a.c", "abc"));
}

#[test]
fn many_stars_do_not_take_long() {
    let pattern = "a*".repeat(40) + "b";
    let name = "a".repeat(400);
    assert!(!glob_match(&pattern, &name));
    assert!(glob_match(&pattern, &(name + "b")));
}
