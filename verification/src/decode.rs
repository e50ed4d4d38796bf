//! How a configuration is read from a JSON value.
use crate::canonical::sorted_names;
use crate::canonical_laws::law_sorted_names;
use crate::config::{
    default_cache_scope, default_config, default_max_entries, default_ttl_ms, Config,
    ResponseCacheConfig, ToolCacheConfig, ToolRule,
};
use crate::json::{
    has_name, lemma_object_view, lemma_value_view, name_index, Json, JsonNumber, JsonObject,
    JsonValue,
};
use crate::refusal::{
    invalid_length, invalid_length_text, invalid_type, invalid_type_text, invalid_value,
    invalid_value_text, missing_field, missing_field_text, names_of, unknown_field,
    unknown_field_text,
};
use crate::text::{
    ascending, chars_le, chars_of, lemma_text_le_antisymmetric, lemma_text_le_reflexive,
    lemma_text_le_total, lemma_text_le_transitive, text_le,
};
use vstd::prelude::*;

verus! {

broadcast use lemma_value_view;

/// The fields of a configuration.
pub open spec fn config_fields() -> Seq<Seq<char>> {
    seq!["default_ttl_ms"@, "max_entries"@, "per_tool"@, "cache_scope"@]
}

/// The fields of a per-tool rule.
pub open spec fn rule_fields() -> Seq<Seq<char>> {
    seq!["tools"@, "ttl_ms"@]
}

/// A value read as an unsigned number of at most `max`, which messages call `expected`.
pub open spec fn decode_number(value: Json, max: int, expected: Seq<char>) -> Result<
    int,
    Seq<char>,
> {
    match value {
        Json::Integer(i) => if 0 <= i <= max {
            Ok(i)
        } else {
            Err(invalid_value(value, expected))
        },
        _ => Err(invalid_type(value, expected)),
    }
}

/// A value read as a TTL.
pub open spec fn decode_ttl(value: Json) -> Result<int, Seq<char>> {
    decode_number(value, u64::MAX as int, "u64"@)
}

/// A value read as a limit.
pub open spec fn decode_limit(value: Json) -> Result<int, Seq<char>> {
    decode_number(value, usize::MAX as int, "usize"@)
}

/// A value read as a string.
pub open spec fn decode_text(value: Json) -> Result<Seq<char>, Seq<char>> {
    match value {
        Json::Text(s) => Ok(s),
        _ => Err(invalid_type(value, "a string"@)),
    }
}

/// Values read as strings, one after the other.
pub open spec fn decode_text_items(values: Seq<Json>) -> Result<Seq<Seq<char>>, Seq<char>>
    decreases values.len(),
{
    if values.len() == 0 {
        Ok(seq![])
    } else {
        match decode_text_items(values.drop_last()) {
            Err(fault) => Err(fault),
            Ok(texts) => match decode_text(values.last()) {
                Err(fault) => Err(fault),
                Ok(text) => Ok(texts.push(text)),
            },
        }
    }
}

/// A value read as a list of strings.
pub open spec fn decode_texts(value: Json) -> Result<Seq<Seq<char>>, Seq<char>> {
    match value {
        Json::Array(items) => decode_text_items(items),
        _ => Err(invalid_type(value, "a sequence"@)),
    }
}

/// What is wrong, if anything is.
pub open spec fn fault_in<T>(decoded: Result<T, Seq<char>>) -> Option<Seq<char>> {
    match decoded {
        Ok(_) => None,
        Err(fault) => Some(fault),
    }
}

/// The name is that of a member with a fault, and no other member with a fault has an earlier
/// name.
pub open spec fn is_first_fault(
    members: Map<Seq<char>, Json>,
    fault_of: spec_fn(Seq<char>, Json) -> Option<Seq<char>>,
    name: Seq<char>,
) -> bool {
    &&& members.dom().contains(name)
    &&& fault_of(name, members[name]) is Some
    &&& forall|k: Seq<char>| #[trigger]
        members.dom().contains(k) && fault_of(k, members[k]) is Some ==> text_le(name, k)
}

/// Whether there is a member with a fault, and a first of them.
pub open spec fn has_fault(
    members: Map<Seq<char>, Json>,
    fault_of: spec_fn(Seq<char>, Json) -> Option<Seq<char>>,
) -> bool {
    exists|name: Seq<char>| is_first_fault(members, fault_of, name)
}

/// The fault of the first member, in the order of names, that has one.
pub open spec fn members_fault(
    members: Map<Seq<char>, Json>,
    fault_of: spec_fn(Seq<char>, Json) -> Option<Seq<char>>,
) -> Option<Seq<char>> {
    if has_fault(members, fault_of) {
        let name = choose|name: Seq<char>| is_first_fault(members, fault_of, name);
        fault_of(name, members[name])
    } else {
        None
    }
}

/// The value of the member of that name, if there is one.
pub open spec fn member(members: Map<Seq<char>, Json>, name: Seq<char>) -> Option<Json> {
    if members.dom().contains(name) {
        Some(members[name])
    } else {
        None
    }
}

/// The item at that place, if there is one.
pub open spec fn item(items: Seq<Json>, i: int) -> Option<Json> {
    if i < items.len() {
        Some(items[i])
    } else {
        None
    }
}

/// What is wrong with a member of a per-tool rule.
pub open spec fn rule_member_fault(name: Seq<char>, value: Json) -> Option<Seq<char>> {
    if name == "tools"@ {
        fault_in(decode_texts(value))
    } else if name == "ttl_ms"@ {
        fault_in(decode_ttl(value))
    } else {
        Some(unknown_field(name, rule_fields()))
    }
}

/// `rule_member_fault`, as a value.
pub open spec fn rule_faults() -> spec_fn(Seq<char>, Json) -> Option<Seq<char>> {
    |name: Seq<char>, value: Json| rule_member_fault(name, value)
}

/// A per-tool rule of those fields, both of which have to be there: else `no_tools` or `no_ttl`
/// says so.
pub open spec fn rule_of(
    tools: Option<Json>,
    ttl: Option<Json>,
    no_tools: Seq<char>,
    no_ttl: Seq<char>,
) -> Result<ToolRule, Seq<char>> {
    match tools {
        None => Err(no_tools),
        Some(tools) => match decode_texts(tools) {
            Err(fault) => Err(fault),
            Ok(tools) => match ttl {
                None => Err(no_ttl),
                Some(ttl) => match decode_ttl(ttl) {
                    Err(fault) => Err(fault),
                    Ok(ttl) => Ok(ToolRule { tools, ttl_ms: ttl as u64 }),
                },
            },
        },
    }
}

/// A value read as a per-tool rule: an object of its fields, or a list of their values in order.
pub open spec fn decode_rule(value: Json) -> Result<ToolRule, Seq<char>> {
    match value {
        Json::Object(members) => match members_fault(members, rule_faults()) {
            Some(fault) => Err(fault),
            None => rule_of(
                member(members, "tools"@),
                member(members, "ttl_ms"@),
                missing_field("tools"@),
                missing_field("ttl_ms"@),
            ),
        },
        Json::Array(items) => match rule_of(
            item(items, 0),
            item(items, 1),
            invalid_length(0, "struct ToolCacheConfig with 2 elements"@),
            invalid_length(1, "struct ToolCacheConfig with 2 elements"@),
        ) {
            Err(fault) => Err(fault),
            Ok(rule) => if items.len() > 2 {
                Err(invalid_length(items.len(), "fewer elements in array"@))
            } else {
                Ok(rule)
            },
        },
        _ => Err(invalid_type(value, "struct ToolCacheConfig"@)),
    }
}

/// Values read as per-tool rules, one after the other.
pub open spec fn decode_rule_items(values: Seq<Json>) -> Result<Seq<ToolRule>, Seq<char>>
    decreases values.len(),
{
    if values.len() == 0 {
        Ok(seq![])
    } else {
        match decode_rule_items(values.drop_last()) {
            Err(fault) => Err(fault),
            Ok(rules) => match decode_rule(values.last()) {
                Err(fault) => Err(fault),
                Ok(rule) => Ok(rules.push(rule)),
            },
        }
    }
}

/// A value read as a list of per-tool rules.
pub open spec fn decode_rules(value: Json) -> Result<Seq<ToolRule>, Seq<char>> {
    match value {
        Json::Array(items) => decode_rule_items(items),
        _ => Err(invalid_type(value, "a sequence"@)),
    }
}

/// What is wrong with a member of a configuration.
pub open spec fn config_member_fault(name: Seq<char>, value: Json) -> Option<Seq<char>> {
    if name == "default_ttl_ms"@ {
        fault_in(decode_ttl(value))
    } else if name == "max_entries"@ {
        fault_in(decode_limit(value))
    } else if name == "per_tool"@ {
        fault_in(decode_rules(value))
    } else if name == "cache_scope"@ {
        fault_in(decode_text(value))
    } else {
        Some(unknown_field(name, config_fields()))
    }
}

/// `config_member_fault`, as a value.
pub open spec fn config_faults() -> spec_fn(Seq<char>, Json) -> Option<Seq<char>> {
    |name: Seq<char>, value: Json| config_member_fault(name, value)
}

/// What a field is read as, or the default where it is absent.
pub open spec fn or_default<T>(decoded: Option<Result<T, Seq<char>>>, default: T) -> Result<
    T,
    Seq<char>,
> {
    match decoded {
        Some(d) => d,
        None => Ok(default),
    }
}

/// A field read by `decode`, if it is there.
pub open spec fn field<T>(
    value: Option<Json>,
    decode: spec_fn(Json) -> Result<T, Seq<char>>,
) -> Option<Result<T, Seq<char>>> {
    match value {
        Some(v) => Some(decode(v)),
        None => None,
    }
}

/// A configuration of those fields, each of which has a default. Of several faults the one in the
/// first field counts.
pub open spec fn config_of(
    ttl: Option<Json>,
    limit: Option<Json>,
    rules: Option<Json>,
    scope: Option<Json>,
) -> Result<Config, Seq<char>> {
    let default = default_config();
    match or_default(field(ttl, |v: Json| decode_ttl(v)), default.default_ttl_ms as int) {
        Err(fault) => Err(fault),
        Ok(ttl) => match or_default(
            field(limit, |v: Json| decode_limit(v)),
            default.max_entries as int,
        ) {
            Err(fault) => Err(fault),
            Ok(limit) => match or_default(
                field(rules, |v: Json| decode_rules(v)),
                default.per_tool,
            ) {
                Err(fault) => Err(fault),
                Ok(per_tool) => match or_default(
                    field(scope, |v: Json| decode_text(v)),
                    default.cache_scope,
                ) {
                    Err(fault) => Err(fault),
                    Ok(cache_scope) => Ok(
                        Config {
                            default_ttl_ms: ttl as u64,
                            max_entries: limit as usize,
                            per_tool,
                            cache_scope,
                        },
                    ),
                },
            },
        },
    }
}

/// A value read as a configuration: an object of its fields, any of which may be absent and beside
/// which nothing may stand, or a list of their values in order. What is wrong with an object is
/// what is wrong with the first of its members, in the order of names; with a list, the first of
/// its items.
pub open spec fn decode_config(value: Json) -> Result<Config, Seq<char>> {
    match value {
        Json::Object(members) => match members_fault(members, config_faults()) {
            Some(fault) => Err(fault),
            None => config_of(
                member(members, "default_ttl_ms"@),
                member(members, "max_entries"@),
                member(members, "per_tool"@),
                member(members, "cache_scope"@),
            ),
        },
        Json::Array(items) => match config_of(
            item(items, 0),
            item(items, 1),
            item(items, 2),
            item(items, 3),
        ) {
            Err(fault) => Err(fault),
            Ok(config) => if items.len() > 4 {
                Err(invalid_length(items.len(), "fewer elements in array"@))
            } else {
                Ok(config)
            },
        },
        _ => Err(invalid_type(value, "struct ResponseCacheConfig"@)),
    }
}

/// A configuration block: one that is absent or holds nothing stands for the defaults.
pub open spec fn decode_block(block: Option<Json>) -> Result<Config, Seq<char>> {
    match block {
        None | Some(Json::Null) => Ok(default_config()),
        Some(value) => decode_config(value),
    }
}

/// The model of an optional message.
spec fn message(text: Option<String>) -> Option<Seq<char>> {
    match text {
        Some(t) => Some(t@),
        None => None,
    }
}

/// What is wrong with the first of an object's entries, in the order of names, with which
/// something is.
fn first_fault(
    object: &JsonObject,
    faults: Vec<Option<String>>,
    fault_of: Ghost<spec_fn(Seq<char>, Json) -> Option<Seq<char>>>,
) -> (fault: Option<String>)
    requires
        faults@.len() == object.entries@.len(),
        forall|i: int|
            0 <= i < faults@.len() ==> message(#[trigger] faults@[i]) == fault_of@(
                object.entries@[i].0@,
                object.entries@[i].1@,
            ),
    ensures
        message(fault) == members_fault(object@, fault_of@),
{
    proof {
        use_type_invariant(object);
        lemma_object_view(*object);
    }
    let mut first: Option<usize> = None;
    let mut i: usize = 0;
    while i < faults.len()
        invariant
            i <= faults@.len(),
            faults@.len() == object.entries@.len(),
            match first {
                Some(f) => f < i && faults@[f as int] is Some && forall|j: int|
                    0 <= j < i && #[trigger] faults@[j] is Some ==> text_le(
                        object.entries@[f as int].0@,
                        object.entries@[j].0@,
                    ),
                None => forall|j: int| 0 <= j < i ==> #[trigger] faults@[j] is None,
            },
        decreases faults@.len() - i,
    {
        if faults[i].is_some() {
            let name = chars_of(object.entries[i].0.as_str());
            let earlier = match first {
                Some(f) => {
                    let least = chars_of(object.entries[f].0.as_str());
                    proof {
                        lemma_text_le_total(name@, least@);
                        lemma_earlier_names(*object, faults@, name@, least@, i as int);
                    }
                    chars_le(&name, &least)
                },
                None => true,
            };
            proof {
                lemma_text_le_reflexive(name@);
            }
            if earlier {
                first = Some(i);
            }
        }
        i += 1;
    }
    proof {
        assert forall|k: Seq<char>| #[trigger] object@.dom().contains(k) implies {
            let j = name_index(object.entries@, k);
            0 <= j < faults@.len() && object.entries@[j].0@ == k && message(faults@[j])
                == fault_of@(k, object@[k])
        } by {
            assert(has_name(object.entries@, k));
            let j = name_index(object.entries@, k);
            assert(message(faults@[j]) == fault_of@(object.entries@[j].0@, object.entries@[j].1@));
        }
        if let Some(f) = first {
            let name = object.entries@[f as int].0@;
            assert(message(faults@[f as int]) == fault_of@(name, object.entries@[f as int].1@));
            assert(is_first_fault(object@, fault_of@, name));
            let other = choose|n: Seq<char>| is_first_fault(object@, fault_of@, n);
            lemma_text_le_antisymmetric(name, other);
        } else if has_fault(object@, fault_of@) {
            let name = choose|n: Seq<char>| is_first_fault(object@, fault_of@, n);
            assert(object@.dom().contains(name));
            let j = name_index(object.entries@, name);
            assert(faults@[j] is None);
        }
    }
    match first {
        Some(f) => {
            match &faults[f] {
                Some(fault) => Some(fault.clone()),
                None => None,
            }
        },
        None => None,
    }
}

/// What stands at or after a name stands after every earlier one.
proof fn lemma_earlier_names(
    object: JsonObject,
    faults: Seq<Option<String>>,
    name: Seq<char>,
    least: Seq<char>,
    n: int,
)
    ensures
        text_le(name, least) ==> forall|j: int|
            0 <= j < n && #[trigger] faults[j] is Some && text_le(least, object.entries@[j].0@)
                ==> text_le(name, object.entries@[j].0@),
{
    if text_le(name, least) {
        assert forall|j: int|
            0 <= j < n && #[trigger] faults[j] is Some && text_le(
                least,
                object.entries@[j].0@,
            ) implies text_le(name, object.entries@[j].0@) by {
            lemma_text_le_transitive(name, least, object.entries@[j].0@);
        }
    }
}

/// A value read as an unsigned number of at most `max`.
fn read_number(value: &JsonValue, max: u64, expected: &str) -> (number: Result<u64, String>)
    ensures
        match number {
            Ok(n) => decode_number(value@, max as int, expected@) == Ok::<int, Seq<char>>(
                n as int,
            ),
            Err(e) => decode_number(value@, max as int, expected@) == Err::<int, Seq<char>>(e@),
        },
{
    match value {
        JsonValue::Number(JsonNumber::Unsigned(u)) => if *u <= max {
            Ok(*u)
        } else {
            Err(invalid_value_text(value, expected))
        },
        JsonValue::Number(JsonNumber::Signed(i)) => if 0 <= *i && *i as u64 <= max {
            Ok(*i as u64)
        } else {
            Err(invalid_value_text(value, expected))
        },
        _ => Err(invalid_type_text(value, expected)),
    }
}

/// A value read as a TTL.
fn read_ttl(value: &JsonValue) -> (ttl: Result<u64, String>)
    ensures
        match ttl {
            Ok(n) => decode_ttl(value@) == Ok::<int, Seq<char>>(n as int),
            Err(e) => decode_ttl(value@) == Err::<int, Seq<char>>(e@),
        },
{
    read_number(value, u64::MAX, "u64")
}

/// A value read as a limit.
fn read_limit(value: &JsonValue) -> (limit: Result<usize, String>)
    ensures
        match limit {
            Ok(n) => decode_limit(value@) == Ok::<int, Seq<char>>(n as int),
            Err(e) => decode_limit(value@) == Err::<int, Seq<char>>(e@),
        },
{
    match read_number(value, usize::MAX as u64, "usize") {
        Ok(n) => Ok(n as usize),
        Err(e) => Err(e),
    }
}

/// A value read as a string.
fn read_text(value: &JsonValue) -> (text: Result<String, String>)
    ensures
        match text {
            Ok(t) => decode_text(value@) == Ok::<Seq<char>, Seq<char>>(t@),
            Err(e) => decode_text(value@) == Err::<Seq<char>, Seq<char>>(e@),
        },
{
    match value {
        JsonValue::String(s) => Ok(s.clone()),
        _ => Err(invalid_type_text(value, "a string")),
    }
}

/// A fault among the first values is the fault of all.
proof fn lemma_text_items_fault(values: Seq<Json>, n: int)
    requires
        0 <= n <= values.len(),
    ensures
        decode_text_items(values.take(n)) is Err ==> decode_text_items(values)
            == decode_text_items(values.take(n)),
    decreases values.len(),
{
    if n == values.len() {
        assert(values.take(n) =~= values);
    } else {
        assert(values.drop_last().take(n) =~= values.take(n));
        lemma_text_items_fault(values.drop_last(), n);
    }
}

/// A value read as a list of strings.
fn read_texts(value: &JsonValue) -> (texts: Result<Vec<String>, String>)
    ensures
        match texts {
            Ok(t) => decode_texts(value@) == Ok::<Seq<Seq<char>>, Seq<char>>(
                t@.map_values(|p: String| p@),
            ),
            Err(e) => decode_texts(value@) == Err::<Seq<Seq<char>>, Seq<char>>(e@),
        },
{
    match value {
        JsonValue::Array(items) => {
            let ghost models = items@.map_values(|item: JsonValue| item@);
            let mut texts: Vec<String> = Vec::new();
            let mut i: usize = 0;
            assert(models.take(0) =~= seq![]);
            assert(texts@.map_values(|p: String| p@) =~= seq![]);
            while i < items.len()
                invariant
                    i <= items@.len(),
                    models == items@.map_values(|item: JsonValue| item@),
                    value@ == Json::Array(models),
                    decode_text_items(models.take(i as int)) == Ok::<Seq<Seq<char>>, Seq<char>>(
                        texts@.map_values(|p: String| p@),
                    ),
                decreases items@.len() - i,
            {
                proof {
                    assert(models.take(i + 1).drop_last() =~= models.take(i as int));
                    assert(models.take(i + 1).last() == items@[i as int]@);
                    lemma_text_items_fault(models, i + 1);
                }
                match read_text(&items[i]) {
                    Ok(text) => {
                        let ghost before = texts@;
                        texts.push(text);
                        assert(texts@.map_values(|p: String| p@) =~= before.map_values(
                            |p: String| p@,
                        ).push(text@));
                    },
                    Err(e) => return Err(e),
                }
                i += 1;
            }
            assert(models.take(models.len() as int) =~= models);
            Ok(texts)
        },
        _ => Err(invalid_type_text(value, "a sequence")),
    }
}

/// What is wrong, if anything is.
fn fault_of_result<T>(read: Result<T, String>) -> (fault: Option<String>)
    ensures
        match read {
            Ok(_) => fault is None,
            Err(e) => fault == Some(e),
        },
{
    match read {
        Ok(_) => None,
        Err(e) => Some(e),
    }
}

/// What is wrong with a member of a per-tool rule.
fn read_rule_member(name: &String, value: &JsonValue) -> (fault: Option<String>)
    ensures
        message(fault) == rule_member_fault(name@, value@),
{
    if *name == "tools".to_owned() {
        fault_of_result(read_texts(value))
    } else if *name == "ttl_ms".to_owned() {
        fault_of_result(read_ttl(value))
    } else {
        let fields: Vec<&str> = vec!["tools", "ttl_ms"];
        assert(names_of(fields@) =~= rule_fields());
        Some(unknown_field_text(name.as_str(), &fields))
    }
}

/// A per-tool rule of those fields.
fn read_rule_of(
    tools: Option<&JsonValue>,
    ttl: Option<&JsonValue>,
    no_tools: String,
    no_ttl: String,
) -> (rule: Result<ToolCacheConfig, String>)
    ensures
        match rule {
            Ok(r) => rule_of(optional_view(tools), optional_view(ttl), no_tools@, no_ttl@) == Ok::<
                ToolRule,
                Seq<char>,
            >(r@),
            Err(e) => rule_of(optional_view(tools), optional_view(ttl), no_tools@, no_ttl@) == Err::<
                ToolRule,
                Seq<char>,
            >(e@),
        },
{
    let tools = match tools {
        None => return Err(no_tools),
        Some(v) => match read_texts(v) {
            Ok(tools) => tools,
            Err(e) => return Err(e),
        },
    };
    let ttl_ms = match ttl {
        None => return Err(no_ttl),
        Some(v) => match read_ttl(v) {
            Ok(ttl_ms) => ttl_ms,
            Err(e) => return Err(e),
        },
    };
    Ok(ToolCacheConfig { tools, ttl_ms })
}

/// The model of an optional value.
pub open spec fn optional_view(value: Option<&JsonValue>) -> Option<Json> {
    match value {
        Some(v) => Some(v@),
        None => None,
    }
}

/// The item at that place.
fn item_at(items: &Vec<JsonValue>, i: usize) -> (found: Option<&JsonValue>)
    ensures
        optional_view(found) == item(items@.map_values(|item: JsonValue| item@), i as int),
{
    if i < items.len() {
        Some(&items[i])
    } else {
        None
    }
}

/// A value read as a per-tool rule.
fn read_rule(value: &JsonValue) -> (rule: Result<ToolCacheConfig, String>)
    ensures
        match rule {
            Ok(r) => decode_rule(value@) == Ok::<ToolRule, Seq<char>>(r@),
            Err(e) => decode_rule(value@) == Err::<ToolRule, Seq<char>>(e@),
        },
{
    match value {
        JsonValue::Object(object) => {
            let mut faults: Vec<Option<String>> = Vec::new();
            let mut i: usize = 0;
            while i < object.entries.len()
                invariant
                    i <= object.entries@.len(),
                    faults@.len() == i,
                    forall|j: int|
                        0 <= j < i ==> message(#[trigger] faults@[j]) == rule_member_fault(
                            object.entries@[j].0@,
                            object.entries@[j].1@,
                        ),
                decreases object.entries@.len() - i,
            {
                faults.push(read_rule_member(&object.entries[i].0, &object.entries[i].1));
                i += 1;
            }
            match first_fault(object, faults, Ghost(rule_faults())) {
                Some(fault) => Err(fault),
                None => read_rule_of(
                    object.get("tools"),
                    object.get("ttl_ms"),
                    missing_field_text("tools"),
                    missing_field_text("ttl_ms"),
                ),
            }
        },
        JsonValue::Array(items) => {
            let expected = "struct ToolCacheConfig with 2 elements";
            match read_rule_of(
                item_at(items, 0),
                item_at(items, 1),
                invalid_length_text(0, expected),
                invalid_length_text(1, expected),
            ) {
                Err(fault) => Err(fault),
                Ok(rule) => if items.len() > 2 {
                    Err(invalid_length_text(items.len(), "fewer elements in array"))
                } else {
                    Ok(rule)
                },
            }
        },
        _ => Err(invalid_type_text(value, "struct ToolCacheConfig")),
    }
}

/// A fault among the first values is the fault of all.
proof fn lemma_rule_items_fault(values: Seq<Json>, n: int)
    requires
        0 <= n <= values.len(),
    ensures
        decode_rule_items(values.take(n)) is Err ==> decode_rule_items(values)
            == decode_rule_items(values.take(n)),
    decreases values.len(),
{
    if n == values.len() {
        assert(values.take(n) =~= values);
    } else {
        assert(values.drop_last().take(n) =~= values.take(n));
        lemma_rule_items_fault(values.drop_last(), n);
    }
}

/// A value read as a list of per-tool rules.
fn read_rules(value: &JsonValue) -> (rules: Result<Vec<ToolCacheConfig>, String>)
    ensures
        match rules {
            Ok(r) => decode_rules(value@) == Ok::<Seq<ToolRule>, Seq<char>>(
                r@.map_values(|rule: ToolCacheConfig| rule@),
            ),
            Err(e) => decode_rules(value@) == Err::<Seq<ToolRule>, Seq<char>>(e@),
        },
{
    match value {
        JsonValue::Array(items) => {
            let ghost models = items@.map_values(|item: JsonValue| item@);
            let mut rules: Vec<ToolCacheConfig> = Vec::new();
            let mut i: usize = 0;
            assert(models.take(0) =~= seq![]);
            assert(rules@.map_values(|rule: ToolCacheConfig| rule@) =~= seq![]);
            while i < items.len()
                invariant
                    i <= items@.len(),
                    models == items@.map_values(|item: JsonValue| item@),
                    value@ == Json::Array(models),
                    decode_rule_items(models.take(i as int)) == Ok::<Seq<ToolRule>, Seq<char>>(
                        rules@.map_values(|rule: ToolCacheConfig| rule@),
                    ),
                decreases items@.len() - i,
            {
                proof {
                    assert(models.take(i + 1).drop_last() =~= models.take(i as int));
                    assert(models.take(i + 1).last() == items@[i as int]@);
                    lemma_rule_items_fault(models, i + 1);
                }
                match read_rule(&items[i]) {
                    Ok(rule) => {
                        let ghost before = rules@;
                        rules.push(rule);
                        assert(rules@.map_values(|rule: ToolCacheConfig| rule@)
                            =~= before.map_values(|rule: ToolCacheConfig| rule@).push(rule@));
                    },
                    Err(e) => return Err(e),
                }
                i += 1;
            }
            assert(models.take(models.len() as int) =~= models);
            Ok(rules)
        },
        _ => Err(invalid_type_text(value, "a sequence")),
    }
}

/// What is wrong with a member of a configuration.
fn read_config_member(name: &String, value: &JsonValue) -> (fault: Option<String>)
    ensures
        message(fault) == config_member_fault(name@, value@),
{
    if *name == "default_ttl_ms".to_owned() {
        fault_of_result(read_ttl(value))
    } else if *name == "max_entries".to_owned() {
        fault_of_result(read_limit(value))
    } else if *name == "per_tool".to_owned() {
        fault_of_result(read_rules(value))
    } else if *name == "cache_scope".to_owned() {
        fault_of_result(read_text(value))
    } else {
        let fields: Vec<&str> = vec!["default_ttl_ms", "max_entries", "per_tool", "cache_scope"];
        assert(names_of(fields@) =~= config_fields());
        Some(unknown_field_text(name.as_str(), &fields))
    }
}

/// A configuration of those fields.
fn read_config_of(
    ttl: Option<&JsonValue>,
    limit: Option<&JsonValue>,
    rules: Option<&JsonValue>,
    scope: Option<&JsonValue>,
) -> (config: Result<ResponseCacheConfig, String>)
    ensures
        ({
            let decoded = config_of(
                optional_view(ttl),
                optional_view(limit),
                optional_view(rules),
                optional_view(scope),
            );
            match config {
                Ok(c) => decoded == Ok::<Config, Seq<char>>(c@),
                Err(e) => decoded == Err::<Config, Seq<char>>(e@),
            }
        }),
{
    let default_ttl_ms = match ttl {
        None => default_ttl_ms(),
        Some(v) => match read_ttl(v) {
            Ok(n) => n,
            Err(e) => return Err(e),
        },
    };
    let max_entries = match limit {
        None => default_max_entries(),
        Some(v) => match read_limit(v) {
            Ok(n) => n,
            Err(e) => return Err(e),
        },
    };
    let per_tool = match rules {
        None => {
            let none: Vec<ToolCacheConfig> = Vec::new();
            assert(none@.map_values(|rule: ToolCacheConfig| rule@) =~= default_config().per_tool);
            none
        },
        Some(v) => match read_rules(v) {
            Ok(rules) => rules,
            Err(e) => return Err(e),
        },
    };
    let cache_scope = match scope {
        None => default_cache_scope(),
        Some(v) => match read_text(v) {
            Ok(s) => s,
            Err(e) => return Err(e),
        },
    };
    Ok(ResponseCacheConfig { default_ttl_ms, max_entries, per_tool, cache_scope })
}

/// A value read as a configuration, or a message on what is wrong with it.
pub fn read_config(value: &JsonValue) -> (config: Result<ResponseCacheConfig, String>)
    ensures
        match config {
            Ok(c) => decode_config(value@) == Ok::<Config, Seq<char>>(c@),
            Err(e) => decode_config(value@) == Err::<Config, Seq<char>>(e@),
        },
{
    match value {
        JsonValue::Object(object) => {
            let mut faults: Vec<Option<String>> = Vec::new();
            let mut i: usize = 0;
            while i < object.entries.len()
                invariant
                    i <= object.entries@.len(),
                    faults@.len() == i,
                    forall|j: int|
                        0 <= j < i ==> message(#[trigger] faults@[j]) == config_member_fault(
                            object.entries@[j].0@,
                            object.entries@[j].1@,
                        ),
                decreases object.entries@.len() - i,
            {
                faults.push(read_config_member(&object.entries[i].0, &object.entries[i].1));
                i += 1;
            }
            match first_fault(object, faults, Ghost(config_faults())) {
                Some(fault) => Err(fault),
                None => read_config_of(
                    object.get("default_ttl_ms"),
                    object.get("max_entries"),
                    object.get("per_tool"),
                    object.get("cache_scope"),
                ),
            }
        },
        JsonValue::Array(items) => {
            match read_config_of(
                item_at(items, 0),
                item_at(items, 1),
                item_at(items, 2),
                item_at(items, 3),
            ) {
                Err(fault) => Err(fault),
                Ok(config) => if items.len() > 4 {
                    Err(invalid_length_text(items.len(), "fewer elements in array"))
                } else {
                    Ok(config)
                },
            }
        },
        _ => Err(invalid_type_text(value, "struct ResponseCacheConfig")),
    }
}

/// Where some member has a fault, there is a first one.
pub proof fn law_a_fault_is_found(
    members: Map<Seq<char>, Json>,
    fault_of: spec_fn(Seq<char>, Json) -> Option<Seq<char>>,
    name: Seq<char>,
)
    requires
        members.dom().finite(),
        members.dom().contains(name),
        fault_of(name, members[name]) is Some,
    ensures
        members_fault(members, fault_of) is Some,
{
    let names = sorted_names(members.dom());
    law_sorted_names(members.dom());
    assert(names.to_set().contains(name));
    let i = choose|i: int| 0 <= i < names.len() && names[i] == name;
    lemma_first_fault_from(members, fault_of, names, i);
}

proof fn lemma_first_fault_from(
    members: Map<Seq<char>, Json>,
    fault_of: spec_fn(Seq<char>, Json) -> Option<Seq<char>>,
    names: Seq<Seq<char>>,
    i: int,
)
    requires
        ascending(names),
        names.to_set() == members.dom(),
        0 <= i < names.len(),
        fault_of(names[i], members[names[i]]) is Some,
    ensures
        has_fault(members, fault_of),
    decreases i,
{
    if exists|j: int|
        0 <= j < i && fault_of(#[trigger] names[j], members[names[j]]) is Some {
        let j = choose|j: int|
            0 <= j < i && fault_of(#[trigger] names[j], members[names[j]]) is Some;
        lemma_first_fault_from(members, fault_of, names, j);
    } else {
        assert(names.to_set().contains(names[i]));
        assert forall|k: Seq<char>| #[trigger]
            members.dom().contains(k) && fault_of(k, members[k]) is Some implies text_le(
            names[i],
            k,
        ) by {
            assert(names.to_set().contains(k));
            let j = choose|j: int| 0 <= j < names.len() && names[j] == k;
            if j == i {
                lemma_text_le_reflexive(k);
            } else {
                assert(i < j);
                assert(text_le(names[i], names[j]));
            }
        }
        assert(is_first_fault(members, fault_of, names[i]));
    }
}

/// The value is an object with a member of that name, which is none of the fields.
pub open spec fn has_stray(value: Json, fields: Seq<Seq<char>>, name: Seq<char>) -> bool {
    value is Object && value->Object_0.dom().finite() && value->Object_0.dom().contains(name)
        && !fields.contains(name)
}

/// The per-tool rules of a value, where it is a record that holds a list of them.
pub open spec fn rule_items(value: Json) -> Option<Seq<Json>> {
    let rules = match value {
        Json::Object(members) => if members.dom().finite() {
            member(members, "per_tool"@)
        } else {
            None
        },
        Json::Array(items) => item(items, 2),
        _ => None,
    };
    match rules {
        Some(Json::Array(items)) => Some(items),
        _ => None,
    }
}

/// The name is that of an unknown field, at the top level or in a per-tool rule.
pub open spec fn has_unknown_field(value: Json, name: Seq<char>) -> bool {
    has_stray(value, config_fields(), name) || (match rule_items(value) {
        Some(items) => exists|i: int|
            0 <= i < items.len() && has_stray(#[trigger] items[i], rule_fields(), name),
        None => false,
    })
}

/// A stray member of a rule is a fault.
proof fn lemma_stray_rule(value: Json, name: Seq<char>)
    requires
        has_stray(value, rule_fields(), name),
    ensures
        decode_rule(value) is Err,
{
    let members = value->Object_0;
    assert(rule_fields()[0] == "tools"@ && rule_fields()[1] == "ttl_ms"@);
    law_a_fault_is_found(members, rule_faults(), name);
}

/// Unknown fields are rejected, at the top level and inside per-tool rules.
pub proof fn law_unknown_fields_rejected(value: Json, name: Seq<char>)
    requires
        has_unknown_field(value, name),
    ensures
        decode_config(value) is Err,
{
    let fields = config_fields();
    assert(fields[0] == "default_ttl_ms"@ && fields[1] == "max_entries"@ && fields[2]
        == "per_tool"@ && fields[3] == "cache_scope"@);
    if has_stray(value, fields, name) {
        law_a_fault_is_found(value->Object_0, config_faults(), name);
    } else {
        let items = rule_items(value)->Some_0;
        let i = choose|i: int|
            0 <= i < items.len() && has_stray(#[trigger] items[i], rule_fields(), name);
        lemma_stray_rule(items[i], name);
        assert(items.take(i + 1).last() == items[i]);
        assert(decode_rule_items(items.take(i + 1)) is Err);
        lemma_rule_items_fault(items, i + 1);
        assert(decode_rules(Json::Array(items)) is Err);
        if let Json::Object(members) = value {
            lemma_distinct_fields();
            assert(config_member_fault("per_tool"@, members["per_tool"@]) is Some);
            law_a_fault_is_found(members, config_faults(), "per_tool"@);
        }
    }
}

/// An unknown field that is all that is wrong is what the message names.
pub proof fn law_unknown_field_is_named(members: Map<Seq<char>, Json>, name: Seq<char>)
    requires
        has_stray(Json::Object(members), config_fields(), name),
        forall|k: Seq<char>| #[trigger]
            members.dom().contains(k) && k != name ==> config_member_fault(k, members[k]) is None,
    ensures
        decode_config(Json::Object(members)) == Err::<Config, Seq<char>>(
            unknown_field(name, config_fields()),
        ),
{
    let fields = config_fields();
    assert(fields[0] == "default_ttl_ms"@ && fields[1] == "max_entries"@ && fields[2]
        == "per_tool"@ && fields[3] == "cache_scope"@);
    law_a_fault_is_found(members, config_faults(), name);
}

/// No two fields of a configuration have the same name.
proof fn lemma_distinct_fields()
    ensures
        "per_tool"@ != "default_ttl_ms"@,
        "per_tool"@ != "max_entries"@,
{
    reveal_strlit("per_tool");
    reveal_strlit("default_ttl_ms");
    reveal_strlit("max_entries");
    assert("per_tool"@.len() == 8);
    assert("default_ttl_ms"@.len() == 14);
    assert("max_entries"@.len() == 11);
}

/// An empty configuration stands for the defaults.
pub proof fn law_empty_config_is_default()
    ensures
        decode_config(Json::Object(Map::empty())) == Ok::<Config, Seq<char>>(default_config()),
{
    let members = Map::<Seq<char>, Json>::empty();
    if has_fault(members, config_faults()) {
        let name = choose|n: Seq<char>| is_first_fault(members, config_faults(), n);
        assert(members.dom().contains(name));
    }
}

/// A field that an object leaves out has its default.
pub proof fn law_absent_fields_take_defaults(members: Map<Seq<char>, Json>)
    requires
        decode_config(Json::Object(members)) is Ok,
    ensures
        ({
            let config = decode_config(Json::Object(members))->Ok_0;
            let default = default_config();
            &&& !members.dom().contains("default_ttl_ms"@) ==> config.default_ttl_ms
                == default.default_ttl_ms
            &&& !members.dom().contains("max_entries"@) ==> config.max_entries
                == default.max_entries
            &&& !members.dom().contains("per_tool"@) ==> config.per_tool == default.per_tool
            &&& !members.dom().contains("cache_scope"@) ==> config.cache_scope
                == default.cache_scope
        }),
{
}

} // verus!
