//! What a configuration is, in the terms of the JSON value that it is read from.
use crate::canonical::integer_text;
use crate::config::{Config, ToolRule};
use crate::decode::{
    config_faults, config_fields, config_member_fault, decode_block, decode_config, decode_rule,
    decode_rule_items, decode_rules, decode_text_items, decode_texts, has_fault, is_first_fault,
    law_a_fault_is_found, member, members_fault, rule_faults, rule_fields, rule_member_fault,
    rule_of,
};
use crate::json::Json;
use crate::refusal::{
    debug_text, missing_field, one_of, ticked, ticked_list, unexpected, unknown_field,
};
use crate::text::{lemma_text_le_antisymmetric, lemma_text_le_reflexive, text_le};
use vstd::prelude::*;

verus! {

/// The names of fields, all different.
proof fn lemma_field_names()
    ensures
        "tools"@ != "ttl_ms"@,
        "default_ttl_ms"@ != "max_entries"@,
        "default_ttl_ms"@ != "per_tool"@,
        "default_ttl_ms"@ != "cache_scope"@,
        "max_entries"@ != "per_tool"@,
        "max_entries"@ != "cache_scope"@,
        "per_tool"@ != "cache_scope"@,
{
    reveal_strlit("tools");
    reveal_strlit("ttl_ms");
    reveal_strlit("default_ttl_ms");
    reveal_strlit("max_entries");
    reveal_strlit("per_tool");
    reveal_strlit("cache_scope");
    assert("tools"@.len() == 5 && "ttl_ms"@.len() == 6);
    assert("default_ttl_ms"@.len() == 14 && "per_tool"@.len() == 8);
    assert("max_entries"@[0] == 'm' && "cache_scope"@[0] == 'c');
    assert("max_entries"@.len() == 11 && "cache_scope"@.len() == 11);
}

/// An object in which nothing is wrong with any member has no fault.
proof fn lemma_no_fault(
    members: Map<Seq<char>, Json>,
    fault_of: spec_fn(Seq<char>, Json) -> Option<Seq<char>>,
)
    requires
        members.dom().finite(),
    ensures
        members_fault(members, fault_of) is None <==> forall|k: Seq<char>| #[trigger]
            members.dom().contains(k) ==> fault_of(k, members[k]) is None,
{
    if exists|k: Seq<char>| #[trigger]
        members.dom().contains(k) && fault_of(k, members[k]) is Some {
        let k = choose|k: Seq<char>| #[trigger]
            members.dom().contains(k) && fault_of(k, members[k]) is Some;
        law_a_fault_is_found(members, fault_of, k);
    } else if has_fault(members, fault_of) {
        let k = choose|k: Seq<char>| is_first_fault(members, fault_of, k);
        assert(members.dom().contains(k));
    }
}

/// A list of strings is read as those strings, in order; and nothing else is read as one.
pub proof fn law_patterns(value: Json, patterns: Seq<Seq<char>>)
    ensures
        decode_texts(value) == Ok::<Seq<Seq<char>>, Seq<char>>(patterns) <==> {
            &&& value is Array
            &&& value->Array_0.len() == patterns.len()
            &&& forall|i: int|
                0 <= i < patterns.len() ==> #[trigger] value->Array_0[i] == Json::Text(patterns[i])
        },
{
    if let Json::Array(items) = value {
        lemma_pattern_items(items, patterns);
    }
}

proof fn lemma_pattern_items(items: Seq<Json>, patterns: Seq<Seq<char>>)
    ensures
        decode_text_items(items) == Ok::<Seq<Seq<char>>, Seq<char>>(patterns) <==> {
            &&& items.len() == patterns.len()
            &&& forall|i: int|
                0 <= i < patterns.len() ==> #[trigger] items[i] == Json::Text(patterns[i])
        },
    decreases items.len(),
{
    if items.len() == 0 {
        assert(patterns.len() == 0 ==> patterns =~= seq![]);
    } else {
        let fewer = items.drop_last();
        if decode_text_items(items) == Ok::<Seq<Seq<char>>, Seq<char>>(patterns) {
            let shorter = decode_text_items(fewer)->Ok_0;
            lemma_pattern_items(fewer, shorter);
            assert forall|i: int| 0 <= i < patterns.len() implies #[trigger] items[i] == Json::Text(
                patterns[i],
            ) by {
                if i < fewer.len() {
                    assert(fewer[i] == items[i]);
                }
            }
        }
        if items.len() == patterns.len() && forall|i: int|
            0 <= i < patterns.len() ==> #[trigger] items[i] == Json::Text(patterns[i]) {
            lemma_pattern_items(fewer, patterns.drop_last());
            assert forall|i: int| 0 <= i < fewer.len() implies #[trigger] fewer[i] == Json::Text(
                patterns.drop_last()[i],
            ) by {
                assert(items[i] == Json::Text(patterns[i]));
            }
            assert(items[items.len() - 1] == Json::Text(patterns[patterns.len() - 1]));
            assert(patterns.drop_last().push(patterns.last()) =~= patterns);
        }
    }
}

/// An object is read as a per-tool rule exactly where its members are `tools`, a list of the rule's
/// patterns, and `ttl_ms`, the rule's TTL.
pub proof fn law_rule_from_object(members: Map<Seq<char>, Json>, rule: ToolRule)
    requires
        members.dom().finite(),
    ensures
        decode_rule(Json::Object(members)) == Ok::<ToolRule, Seq<char>>(rule) <==> {
            &&& members.dom() == set!["tools"@, "ttl_ms"@]
            &&& members["tools"@] is Array
            &&& members["tools"@]->Array_0.len() == rule.tools.len()
            &&& forall|i: int|
                0 <= i < rule.tools.len() ==> #[trigger] members["tools"@]->Array_0[i]
                    == Json::Text(rule.tools[i])
            &&& members["ttl_ms"@] == Json::Integer(rule.ttl_ms as int)
        },
{
    lemma_field_names();
    lemma_no_fault(members, rule_faults());
    law_patterns(members["tools"@], rule.tools);
    let decoded = decode_rule(Json::Object(members));
    if decoded == Ok::<ToolRule, Seq<char>>(rule) {
        assert forall|k: Seq<char>| members.dom().contains(k) implies set![
            "tools"@,
            "ttl_ms"@,
        ].contains(k) by {
            assert(rule_member_fault(k, members[k]) is None);
        }
        assert(members.dom() =~= set!["tools"@, "ttl_ms"@]);
    }
    if members.dom() == set!["tools"@, "ttl_ms"@] {
        assert(members.dom().contains("tools"@) && members.dom().contains("ttl_ms"@));
        if decode_texts(members["tools"@]) == Ok::<Seq<Seq<char>>, Seq<char>>(rule.tools)
            && members["ttl_ms"@] == Json::Integer(rule.ttl_ms as int) {
            assert forall|k: Seq<char>| #[trigger] members.dom().contains(k) implies rule_faults()(
                k,
                members[k],
            ) is None by {
                assert(k == "tools"@ || k == "ttl_ms"@);
            }
            assert(rule_of(
                member(members, "tools"@),
                member(members, "ttl_ms"@),
                missing_field("tools"@),
                missing_field("ttl_ms"@),
            ) == Ok::<ToolRule, Seq<char>>(rule));
        }
    }
}

/// A list is read as a per-tool rule exactly where it holds the list of the rule's patterns and the
/// rule's TTL.
pub proof fn law_rule_from_list(items: Seq<Json>, rule: ToolRule)
    ensures
        decode_rule(Json::Array(items)) == Ok::<ToolRule, Seq<char>>(rule) <==> {
            &&& items.len() == 2
            &&& items[0] is Array
            &&& items[0]->Array_0.len() == rule.tools.len()
            &&& forall|i: int|
                0 <= i < rule.tools.len() ==> #[trigger] items[0]->Array_0[i] == Json::Text(
                    rule.tools[i],
                )
            &&& items[1] == Json::Integer(rule.ttl_ms as int)
        },
{
    law_patterns(items[0], rule.tools);
}

/// What is neither an object nor a list is no per-tool rule.
pub proof fn law_no_other_rule(value: Json)
    requires
        !(value is Object),
        !(value is Array),
    ensures
        decode_rule(value) is Err,
        decode_rules(value) is Err,
        decode_texts(value) is Err,
        decode_config(value) is Err,
{
}

/// A list is read as per-tool rules exactly where each of its items is read as the rule in its
/// place; and nothing but a list is read as rules.
pub proof fn law_rules(value: Json, rules: Seq<ToolRule>)
    ensures
        decode_rules(value) == Ok::<Seq<ToolRule>, Seq<char>>(rules) <==> {
            &&& value is Array
            &&& value->Array_0.len() == rules.len()
            &&& forall|i: int|
                0 <= i < rules.len() ==> decode_rule(#[trigger] value->Array_0[i]) == Ok::<
                    ToolRule,
                    Seq<char>,
                >(rules[i])
        },
{
    if let Json::Array(items) = value {
        lemma_rule_items(items, rules);
    }
}

proof fn lemma_rule_items(items: Seq<Json>, rules: Seq<ToolRule>)
    ensures
        decode_rule_items(items) == Ok::<Seq<ToolRule>, Seq<char>>(rules) <==> {
            &&& items.len() == rules.len()
            &&& forall|i: int|
                0 <= i < rules.len() ==> decode_rule(#[trigger] items[i]) == Ok::<
                    ToolRule,
                    Seq<char>,
                >(rules[i])
        },
    decreases items.len(),
{
    if items.len() == 0 {
        assert(rules.len() == 0 ==> rules =~= seq![]);
    } else {
        let fewer = items.drop_last();
        if decode_rule_items(items) == Ok::<Seq<ToolRule>, Seq<char>>(rules) {
            let shorter = decode_rule_items(fewer)->Ok_0;
            lemma_rule_items(fewer, shorter);
            assert forall|i: int| 0 <= i < rules.len() implies decode_rule(#[trigger] items[i])
                == Ok::<ToolRule, Seq<char>>(rules[i]) by {
                if i < fewer.len() {
                    assert(fewer[i] == items[i]);
                }
            }
        }
        if items.len() == rules.len() && forall|i: int|
            0 <= i < rules.len() ==> decode_rule(#[trigger] items[i]) == Ok::<ToolRule, Seq<char>>(
                rules[i],
            ) {
            lemma_rule_items(fewer, rules.drop_last());
            assert forall|i: int| 0 <= i < fewer.len() implies decode_rule(#[trigger] fewer[i])
                == Ok::<ToolRule, Seq<char>>(rules.drop_last()[i]) by {
                assert(decode_rule(items[i]) == Ok::<ToolRule, Seq<char>>(rules[i]));
            }
            assert(decode_rule(items[items.len() - 1]) == Ok::<ToolRule, Seq<char>>(
                rules[rules.len() - 1],
            ));
            assert(rules.drop_last().push(rules.last()) =~= rules);
        }
    }
}

/// An object is read as a configuration exactly where every member is one of the four fields, every
/// field that is given has its given value, whichever others are there, and every field that is not
/// given has its default.
pub proof fn law_config_from_object(members: Map<Seq<char>, Json>, config: Config)
    requires
        members.dom().finite(),
    ensures
        decode_config(Json::Object(members)) == Ok::<Config, Seq<char>>(config) <==> {
            &&& members.dom().subset_of(
                set!["default_ttl_ms"@, "max_entries"@, "per_tool"@, "cache_scope"@],
            )
            &&& if members.dom().contains("default_ttl_ms"@) {
                members["default_ttl_ms"@] == Json::Integer(config.default_ttl_ms as int)
            } else {
                config.default_ttl_ms == 300000
            }
            &&& if members.dom().contains("max_entries"@) {
                members["max_entries"@] == Json::Integer(config.max_entries as int)
            } else {
                config.max_entries == 10000
            }
            &&& if members.dom().contains("per_tool"@) {
                decode_rules(members["per_tool"@]) == Ok::<Seq<ToolRule>, Seq<char>>(
                    config.per_tool,
                )
            } else {
                config.per_tool.len() == 0
            }
            &&& if members.dom().contains("cache_scope"@) {
                members["cache_scope"@] == Json::Text(config.cache_scope)
            } else {
                config.cache_scope == "shared"@
            }
        },
{
    lemma_field_names();
    lemma_no_fault(members, config_faults());
    let fields = set!["default_ttl_ms"@, "max_entries"@, "per_tool"@, "cache_scope"@];
    let decoded = decode_config(Json::Object(members));
    assert(config.per_tool.len() == 0 ==> config.per_tool =~= seq![]);
    if decoded is Ok {
        assert forall|k: Seq<char>| members.dom().contains(k) implies fields.contains(k) by {
            assert(config_member_fault(k, members[k]) is None);
        }
    }
    if members.dom().subset_of(fields) {
        assert forall|k: Seq<char>| #[trigger] members.dom().contains(k) implies k
            == "default_ttl_ms"@ || k == "max_entries"@ || k == "per_tool"@ || k
            == "cache_scope"@ by {
            assert(fields.contains(k));
        }
        if (members.dom().contains("default_ttl_ms"@) ==> config_member_fault(
            "default_ttl_ms"@,
            members["default_ttl_ms"@],
        ) is None) && (members.dom().contains("max_entries"@) ==> config_member_fault(
            "max_entries"@,
            members["max_entries"@],
        ) is None) && (members.dom().contains("per_tool"@) ==> config_member_fault(
            "per_tool"@,
            members["per_tool"@],
        ) is None) && (members.dom().contains("cache_scope"@) ==> config_member_fault(
            "cache_scope"@,
            members["cache_scope"@],
        ) is None) {
            assert forall|k: Seq<char>| #[trigger] members.dom().contains(k) implies config_faults()(
                k,
                members[k],
            ) is None by {}
            assert(members_fault(members, config_faults()) is None);
        }
    }
}

/// A field that an object gives is taken as it is given.
pub proof fn law_given_fields_are_taken(members: Map<Seq<char>, Json>, config: Config)
    requires
        members.dom().finite(),
        decode_config(Json::Object(members)) == Ok::<Config, Seq<char>>(config),
    ensures
        members.dom().contains("default_ttl_ms"@) ==> members["default_ttl_ms"@] == Json::Integer(
            config.default_ttl_ms as int,
        ),
        members.dom().contains("max_entries"@) ==> members["max_entries"@] == Json::Integer(
            config.max_entries as int,
        ),
        members.dom().contains("cache_scope"@) ==> members["cache_scope"@] == Json::Text(
            config.cache_scope,
        ),
{
    law_config_from_object(members, config);
}

/// The per-tool rules that an object gives are taken as they are given: as many, in order, and each
/// with the patterns and the TTL that it is given, as an object or as a list.
pub proof fn law_given_rules_are_taken(members: Map<Seq<char>, Json>, config: Config, i: int)
    requires
        members.dom().finite(),
        decode_config(Json::Object(members)) == Ok::<Config, Seq<char>>(config),
        members.dom().contains("per_tool"@),
    ensures
        members["per_tool"@] is Array,
        members["per_tool"@]->Array_0.len() == config.per_tool.len(),
        0 <= i < config.per_tool.len() ==> {
            let given = members["per_tool"@]->Array_0[i];
            let rule = config.per_tool[i];
            let (tools, ttl) = if given is Object {
                (given->Object_0["tools"@], given->Object_0["ttl_ms"@])
            } else {
                (given->Array_0[0], given->Array_0[1])
            };
            &&& given is Object || given is Array
            &&& !(given is Object) || given->Object_0.dom().finite() ==> {
                &&& ttl == Json::Integer(rule.ttl_ms as int)
                &&& tools is Array
                &&& tools->Array_0.len() == rule.tools.len()
                &&& forall|p: int|
                    0 <= p < rule.tools.len() ==> #[trigger] tools->Array_0[p] == Json::Text(
                        rule.tools[p],
                    )
            }
        },
{
    law_config_from_object(members, config);
    let value = members["per_tool"@];
    law_rules(value, config.per_tool);
    if 0 <= i < config.per_tool.len() {
        let given = value->Array_0[i];
        let rule = config.per_tool[i];
        assert(decode_rule(value->Array_0[i]) == Ok::<ToolRule, Seq<char>>(rule));
        match given {
            Json::Object(m) => {
                if m.dom().finite() {
                    law_rule_from_object(m, rule);
                }
            },
            Json::Array(parts) => {
                law_rule_from_list(parts, rule);
            },
            _ => {
                law_no_other_rule(given);
            },
        }
    }
}

/// A list is read as a configuration exactly where it has no more items than there are fields, the
/// items are the values of the first fields, in order, and the other fields have their defaults.
pub proof fn law_config_from_list(items: Seq<Json>, config: Config)
    ensures
        decode_config(Json::Array(items)) == Ok::<Config, Seq<char>>(config) <==> {
            &&& items.len() <= 4
            &&& if items.len() > 0 {
                items[0] == Json::Integer(config.default_ttl_ms as int)
            } else {
                config.default_ttl_ms == 300000
            }
            &&& if items.len() > 1 {
                items[1] == Json::Integer(config.max_entries as int)
            } else {
                config.max_entries == 10000
            }
            &&& if items.len() > 2 {
                decode_rules(items[2]) == Ok::<Seq<ToolRule>, Seq<char>>(config.per_tool)
            } else {
                config.per_tool.len() == 0
            }
            &&& if items.len() > 3 {
                items[3] == Json::Text(config.cache_scope)
            } else {
                config.cache_scope == "shared"@
            }
        },
{
    assert(config.per_tool.len() == 0 ==> config.per_tool =~= seq![]);
}

/// A block that is absent or `null` stands for a TTL of five minutes, ten thousand entries, no rules
/// and the scope `shared`; any other is read as a configuration.
pub proof fn law_block(value: Json)
    ensures
        decode_block(None) is Ok,
        decode_block(None) == decode_block(Some(Json::Null)),
        decode_block(None)->Ok_0.default_ttl_ms == 300000,
        decode_block(None)->Ok_0.max_entries == 10000,
        decode_block(None)->Ok_0.per_tool.len() == 0,
        decode_block(None)->Ok_0.cache_scope == "shared"@,
        !(value is Null) ==> decode_block(Some(value)) == decode_config(value),
{
}

/// Of the members of an object with which something is wrong, the one whose name comes first is
/// reported.
pub proof fn law_first_by_name(members: Map<Seq<char>, Json>, name: Seq<char>)
    requires
        members.dom().contains(name),
        config_member_fault(name, members[name]) is Some,
        forall|k: Seq<char>| #[trigger]
            members.dom().contains(k) && k != name && config_member_fault(k, members[k]) is Some
                ==> text_le(name, k),
    ensures
        decode_config(Json::Object(members)) == Err::<Config, Seq<char>>(
            config_member_fault(name, members[name])->Some_0,
        ),
{
    lemma_text_le_reflexive(name);
    assert(is_first_fault(members, config_faults(), name));
    let first = choose|n: Seq<char>| is_first_fault(members, config_faults(), n);
    assert(text_le(first, name) && text_le(name, first));
    lemma_text_le_antisymmetric(first, name);
}

/// Of the members of a per-tool rule with which something is wrong, the one whose name comes first
/// is reported.
pub proof fn law_first_by_name_in_rule(members: Map<Seq<char>, Json>, name: Seq<char>)
    requires
        members.dom().contains(name),
        rule_member_fault(name, members[name]) is Some,
        forall|k: Seq<char>| #[trigger]
            members.dom().contains(k) && k != name && rule_member_fault(k, members[k]) is Some
                ==> text_le(name, k),
    ensures
        decode_rule(Json::Object(members)) == Err::<ToolRule, Seq<char>>(
            rule_member_fault(name, members[name])->Some_0,
        ),
{
    lemma_text_le_reflexive(name);
    assert(is_first_fault(members, rule_faults(), name));
    let first = choose|n: Seq<char>| is_first_fault(members, rule_faults(), n);
    assert(text_le(first, name) && text_le(name, first));
    lemma_text_le_antisymmetric(first, name);
}

/// Of the items of a list with which something is wrong as the value of the field in their place,
/// the first is reported; and only where there is none, that there are too many.
pub proof fn law_first_in_list(items: Seq<Json>, i: int)
    requires
        0 <= i < items.len(),
        i <= 4,
        i < 4 ==> config_member_fault(config_fields()[i], items[i]) is Some,
        forall|j: int|
            0 <= j < i ==> config_member_fault(#[trigger] config_fields()[j], items[j]) is None,
    ensures
        i < 4 ==> decode_config(Json::Array(items)) == Err::<Config, Seq<char>>(
            config_member_fault(config_fields()[i], items[i])->Some_0,
        ),
        i == 4 ==> decode_config(Json::Array(items)) == Err::<Config, Seq<char>>(
            "invalid length "@ + integer_text(items.len() as int) + ", expected "@
                + "fewer elements in array"@,
        ),
{
    lemma_field_names();
    let f = config_fields();
    assert(f[0] == "default_ttl_ms"@ && f[1] == "max_entries"@ && f[2] == "per_tool"@ && f[3]
        == "cache_scope"@);
    if i > 0 {
        assert(config_member_fault(f[0], items[0]) is None);
    }
    if i > 1 {
        assert(config_member_fault(f[1], items[1]) is None);
    }
    if i > 2 {
        assert(config_member_fault(f[2], items[2]) is None);
    }
    if i > 3 {
        assert(config_member_fault(f[3], items[3]) is None);
    }
}

/// What is wrong with a list that is no per-tool rule: its patterns, its TTL, that one of them is
/// not there, or that there is more.
pub proof fn law_rule_list_faults(items: Seq<Json>)
    ensures
        ({
            let decoded = decode_rule(Json::Array(items));
            let tools = rule_member_fault("tools"@, items[0]);
            let ttl = rule_member_fault("ttl_ms"@, items[1]);
            &&& items.len() == 0 ==> decoded == Err::<ToolRule, Seq<char>>(
                "invalid length "@ + integer_text(0) + ", expected "@
                    + "struct ToolCacheConfig with 2 elements"@,
            )
            &&& items.len() > 0 && tools is Some ==> decoded == Err::<ToolRule, Seq<char>>(
                tools->Some_0,
            )
            &&& items.len() == 1 && tools is None ==> decoded == Err::<ToolRule, Seq<char>>(
                "invalid length "@ + integer_text(1) + ", expected "@
                    + "struct ToolCacheConfig with 2 elements"@,
            )
            &&& items.len() > 1 && tools is None && ttl is Some ==> decoded == Err::<
                ToolRule,
                Seq<char>,
            >(ttl->Some_0)
            &&& items.len() > 2 && tools is None && ttl is None ==> decoded == Err::<
                ToolRule,
                Seq<char>,
            >(
                "invalid length "@ + integer_text(items.len() as int) + ", expected "@
                    + "fewer elements in array"@,
            )
        }),
{
    lemma_field_names();
}

/// What is said of a value that is neither an object nor a list.
pub proof fn law_no_record(value: Json)
    requires
        !(value is Object),
        !(value is Array),
    ensures
        decode_config(value) == Err::<Config, Seq<char>>(
            "invalid type: "@ + unexpected(value) + ", expected "@ + "struct ResponseCacheConfig"@,
        ),
        decode_rule(value) == Err::<ToolRule, Seq<char>>(
            "invalid type: "@ + unexpected(value) + ", expected "@ + "struct ToolCacheConfig"@,
        ),
{
}

/// What is wrong with a member of a configuration.
pub proof fn law_config_member(name: Seq<char>, value: Json)
    ensures
        ({
            let fault = config_member_fault(name, value);
            &&& name == "default_ttl_ms"@ ==> fault == match value {
                Json::Integer(i) => if 0 <= i <= 0xFFFF_FFFF_FFFF_FFFF {
                    None
                } else {
                    Some("invalid value: "@ + unexpected(value) + ", expected "@ + "u64"@)
                },
                _ => Some("invalid type: "@ + unexpected(value) + ", expected "@ + "u64"@),
            }
            &&& name == "max_entries"@ ==> fault == match value {
                Json::Integer(i) => if 0 <= i <= usize::MAX {
                    None
                } else {
                    Some("invalid value: "@ + unexpected(value) + ", expected "@ + "usize"@)
                },
                _ => Some("invalid type: "@ + unexpected(value) + ", expected "@ + "usize"@),
            }
            &&& name == "cache_scope"@ ==> fault == match value {
                Json::Text(_) => None,
                _ => Some("invalid type: "@ + unexpected(value) + ", expected "@ + "a string"@),
            }
            &&& name == "per_tool"@ && !(value is Array) ==> fault == Some(
                "invalid type: "@ + unexpected(value) + ", expected "@ + "a sequence"@,
            )
            &&& name == "per_tool"@ && value is Array ==> fault == match decode_rules(value) {
                Ok(_) => None,
                Err(message) => Some(message),
            }
            &&& name != "default_ttl_ms"@ && name != "max_entries"@ && name != "cache_scope"@
                && name != "per_tool"@ ==> fault == Some(
                "unknown field `"@ + name
                    + "`, expected one of `default_ttl_ms`, `max_entries`, `per_tool`, `cache_scope`"@,
            )
        }),
{
    lemma_field_names();
    lemma_config_choice();
    assert("unknown field `"@ + name + ("`, expected "@ + one_of(config_fields()))
        =~= unknown_field(name, config_fields()));
}

proof fn lemma_config_choice()
    ensures
        "`, expected "@ + one_of(config_fields())
            == "`, expected one of `default_ttl_ms`, `max_entries`, `per_tool`, `cache_scope`"@,
{
    reveal_strlit("`, expected one of `default_ttl_ms`, `max_entries`, `per_tool`, `cache_scope`");
    reveal_strlit("`, expected ");
    reveal_strlit("one of ");
    reveal_strlit(", ");
    reveal_strlit("`");
    reveal_strlit("default_ttl_ms");
    reveal_strlit("max_entries");
    reveal_strlit("per_tool");
    reveal_strlit("cache_scope");
    let f = config_fields();
    let a = f.drop_last();
    let b = a.drop_last();
    let c = b.drop_last();
    assert(c[0] == "default_ttl_ms"@ && b.last() == "max_entries"@ && a.last() == "per_tool"@
        && f.last() == "cache_scope"@);
    assert(ticked_list(c) == ticked(c[0]));
    assert(ticked_list(b) == ticked_list(c) + ", "@
        + ticked(b.last()));
    assert(ticked_list(a) == ticked_list(b) + ", "@
        + ticked(a.last()));
    assert(ticked_list(f) == ticked_list(a) + ", "@
        + ticked(f.last()));
    assert("`, expected "@ + one_of(f)
        =~= "`, expected one of `default_ttl_ms`, `max_entries`, `per_tool`, `cache_scope`"@);
}

/// What is wrong with a member of a per-tool rule.
pub proof fn law_rule_member(name: Seq<char>, value: Json)
    ensures
        ({
            let fault = rule_member_fault(name, value);
            &&& name == "ttl_ms"@ ==> fault == match value {
                Json::Integer(i) => if 0 <= i <= 0xFFFF_FFFF_FFFF_FFFF {
                    None
                } else {
                    Some("invalid value: "@ + unexpected(value) + ", expected "@ + "u64"@)
                },
                _ => Some("invalid type: "@ + unexpected(value) + ", expected "@ + "u64"@),
            }
            &&& name == "tools"@ && !(value is Array) ==> fault == Some(
                "invalid type: "@ + unexpected(value) + ", expected "@ + "a sequence"@,
            )
            &&& name == "tools"@ && value is Array ==> fault == match decode_texts(value) {
                Ok(_) => None,
                Err(message) => Some(message),
            }
            &&& name != "ttl_ms"@ && name != "tools"@ ==> fault == Some(
                "unknown field `"@ + name + "`, expected `tools` or `ttl_ms`"@,
            )
        }),
{
    lemma_field_names();
    reveal_strlit("`, expected `tools` or `ttl_ms`");
    reveal_strlit("`, expected ");
    reveal_strlit(" or ");
    reveal_strlit("`");
    reveal_strlit("tools");
    reveal_strlit("ttl_ms");
    let f = rule_fields();
    assert("`, expected "@ + one_of(f) =~= "`, expected `tools` or `ttl_ms`"@);
    assert("unknown field `"@ + name + ("`, expected "@ + one_of(f))
        =~= unknown_field(name, f));
}

/// The first item of a list of patterns that is no string is what is wrong with it.
pub proof fn law_first_bad_pattern(items: Seq<Json>, i: int)
    requires
        0 <= i < items.len(),
        !(items[i] is Text),
        forall|j: int| 0 <= j < i ==> #[trigger] items[j] is Text,
    ensures
        decode_texts(Json::Array(items)) == Err::<Seq<Seq<char>>, Seq<char>>(
            "invalid type: "@ + unexpected(items[i]) + ", expected "@ + "a string"@,
        ),
    decreases items.len(),
{
    let fewer = items.drop_last();
    if i < fewer.len() {
        assert forall|j: int| 0 <= j < i implies #[trigger] fewer[j] is Text by {
            assert(items[j] is Text);
        }
        law_first_bad_pattern(fewer, i);
        assert(decode_texts(Json::Array(fewer)) == decode_text_items(fewer));
    } else {
        let texts = Seq::new(fewer.len(), |j: int| fewer[j]->Text_0);
        assert forall|j: int| 0 <= j < texts.len() implies #[trigger] fewer[j] == Json::Text(
            texts[j],
        ) by {
            assert(items[j] is Text);
        }
        lemma_pattern_items(fewer, texts);
    }
}

/// The first item of a list of rules with which something is wrong is what is reported.
pub proof fn law_first_bad_rule(items: Seq<Json>, i: int)
    requires
        0 <= i < items.len(),
        decode_rule(items[i]) is Err,
        forall|j: int| 0 <= j < i ==> decode_rule(#[trigger] items[j]) is Ok,
    ensures
        decode_rules(Json::Array(items)) == Err::<Seq<ToolRule>, Seq<char>>(
            decode_rule(items[i])->Err_0,
        ),
    decreases items.len(),
{
    let fewer = items.drop_last();
    if i < fewer.len() {
        assert forall|j: int| 0 <= j < i implies decode_rule(#[trigger] fewer[j]) is Ok by {
            assert(decode_rule(items[j]) is Ok);
        }
        law_first_bad_rule(fewer, i);
        assert(decode_rules(Json::Array(fewer)) == decode_rule_items(fewer));
    } else {
        let rules = Seq::new(fewer.len(), |j: int| decode_rule(fewer[j])->Ok_0);
        assert forall|j: int| 0 <= j < rules.len() implies decode_rule(#[trigger] fewer[j]) == Ok::<
            ToolRule,
            Seq<char>,
        >(rules[j]) by {
            assert(decode_rule(items[j]) is Ok);
        }
        lemma_rule_items(fewer, rules);
    }
}

/// How a message names a value.
pub proof fn law_unexpected(value: Json)
    ensures
        value is Null ==> unexpected(value) == "null"@,
        value == Json::Bool(true) ==> unexpected(value) == "boolean `true`"@,
        value == Json::Bool(false) ==> unexpected(value) == "boolean `false`"@,
        value is Array ==> unexpected(value) == "sequence"@,
        value is Object ==> unexpected(value) == "map"@,
        value is Text ==> unexpected(value) == "string "@ + debug_text(value->Text_0),
        value is Decimal ==> unexpected(value) == "floating point `"@ + value->Decimal_0 + "`"@,
        value is Integer ==> unexpected(value) == "integer `"@ + integer_text(
            value->Integer_0,
        ) + "`"@,
{
}

/// A rule that leaves a field out is refused for it, the patterns before the TTL.
pub proof fn law_incomplete_rules(members: Map<Seq<char>, Json>, items: Seq<Json>)
    requires
        members.dom().finite(),
        forall|k: Seq<char>| #[trigger]
            members.dom().contains(k) ==> rule_member_fault(k, members[k]) is None,
    ensures
        !members.dom().contains("tools"@) ==> decode_rule(Json::Object(members)) == Err::<
            ToolRule,
            Seq<char>,
        >("missing field `"@ + "tools"@ + "`"@),
        members.dom().contains("tools"@) && !members.dom().contains("ttl_ms"@) ==> decode_rule(
            Json::Object(members),
        ) == Err::<ToolRule, Seq<char>>("missing field `"@ + "ttl_ms"@ + "`"@),
        decode_rule(Json::Array(seq![])) is Err,
        items.len() != 2 ==> decode_rule(Json::Array(items)) is Err,
        items.len() > 4 ==> decode_config(Json::Array(items)) is Err,
{
    lemma_field_names();
    lemma_no_fault(members, rule_faults());
    if members.dom().contains("tools"@) {
        assert(rule_member_fault("tools"@, members["tools"@]) is None);
    }
}

} // verus!
