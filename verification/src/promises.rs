//! What the cache does, in the terms of what it is given and what it holds.
use crate::canonical::canonical_text;
use crate::config::{Config, ResponseCacheConfig};
use crate::decode::optional_view;
use crate::glob::glob_matches;
use crate::json::{Json, JsonValue};
use crate::key::{hash_bytes, hash_writes, string_writes, CallId};
use crate::laws::{call_bytes, law_default_ttl, law_first_rule_wins, lemma_live_entries};
use crate::model::{
    cacheable, call_key, counted_as, evict_step, lookup_step, post_step, pre_step, recorded_ttl, rule_matches,
    scoped_identity, store_step, tool_ttl, CacheLookup, State,
};
use crate::plugin::is_fresh;
use crate::protocol::{GateDecision, PluginClass, PluginContext, Request};
use crate::store::{live_entries, CacheEntry, Entry};
use std::collections::hash_map::DefaultHasher;
use vstd::prelude::*;
use vstd::utf8::encode_utf8;

verus! {

/// An entry has expired once its TTL has passed since it was stored, in milliseconds; one whose TTL
/// is zero, at once.
pub proof fn law_expiry(entry: Entry, now: u128)
    ensures
        entry.expired(now) <==> entry.ttl_ms == 0 || now - entry.stored_at >= entry.ttl_ms
            * 1_000_000,
{
}

/// Time only ever makes an entry expire, and a later entry of the same TTL lives at least as long.
pub proof fn law_expiry_is_monotone(entry: Entry, later: Entry, now: u128, then: u128)
    requires
        now <= then,
        later.ttl_ms == entry.ttl_ms,
        later.stored_at >= entry.stored_at,
    ensures
        entry.expired(now) ==> entry.expired(then),
        later.expired(now) ==> entry.expired(now),
{
}

/// The part of the identity that counts is the subject, if there is one, under the scope
/// `per_identity` to the letter; under any other scope, none.
pub proof fn law_identity(config: Config, request: Request)
    ensures
        config.cache_scope == "per_identity"@ ==> scoped_identity(config, request)
            == request.subject_id,
        config.cache_scope != "per_identity"@ ==> scoped_identity(config, request) is None,
{
}

/// A cache is sound where it holds finitely many entries, no more than it counts, and counts no more
/// than its limit.
pub proof fn law_soundness(state: State)
    ensures
        state.well_formed() <==> state.entries.dom().finite() && state.entries.dom().len()
            <= state.entry_count && state.entry_count <= state.config.max_entries,
{
}

/// A new cache holds nothing and counts nothing, has the configuration that it is given, and
/// introduces itself as a tool gate that asks for nothing.
pub proof fn law_new_cache(state: State, config: Config)
    requires
        is_fresh(state, config),
    ensures
        state.config == config,
        state.entries.dom() == Set::<u64>::empty(),
        state.entry_count == 0,
        state.manifest.id@ == "dev.mcpg.response-cache"@,
        state.manifest.version@ == "0.1.0"@,
        state.manifest.name@ == "Response Cache"@,
        state.manifest.module_path_prefix@ == "response_cache"@,
        state.manifest.plugin_class == PluginClass::ToolGate,
        state.manifest.protocol_version@ == "1.0"@,
        state.manifest.license is None,
        state.manifest.backend_profile is None,
        state.manifest.required_capabilities@.len() == 0,
        state.manifest.tags@.len() == 0,
        state.manifest.provides@.len() == 0,
        state.manifest.provides_schemes@.len() == 0,
{
}

/// What looking a call up under a key comes to, whatever the key.
pub proof fn law_lookup(state: State, key: u64, call: CallId, now: u128)
    ensures
        ({
            let (after, decision, lookup) = lookup_step(state, key, call, now);
            let entry = state.entries[key];
            let here = state.entries.dom().contains(key);
            let live = entry.ttl_ms > 0 && now - entry.stored_at < entry.ttl_ms * 1_000_000;
            let same_call = entry.call.surface == call.surface && entry.call.tool_name
                == call.tool_name && entry.call.arguments == call.arguments && entry.call.identity
                == call.identity;
            &&& lookup == if here && live && same_call {
                CacheLookup::Hit
            } else {
                CacheLookup::Miss
            }
            &&& decision.modified_arguments is None
            &&& decision.modified_result == if here && live && same_call {
                Some(entry.result)
            } else {
                None
            }
            &&& decision.metadata is Some <==> here && live && same_call
            &&& here && !live ==> after.entries == state.entries.remove(key)
            &&& here && !live && state.entry_count > 0 ==> after.entry_count == state.entry_count
                - 1
            &&& !here || live ==> after == state
        }),
{
    assert(state.entries[key].call == call <==> (state.entries[key].call.surface == call.surface
        && state.entries[key].call.tool_name == call.tool_name && state.entries[key].call.arguments
        == call.arguments && state.entries[key].call.identity == call.identity)) by {
        assert(state.entries[key].call.surface == call.surface && state.entries[key].call.tool_name
            == call.tool_name && state.entries[key].call.arguments == call.arguments
            && state.entries[key].call.identity == call.identity ==> state.entries[key].call
            =~= call);
    }
}

/// What writing an entry leaves, whatever its key.
pub proof fn law_write(before: State, after: State, key: u64, entry: Entry, k: u64)
    requires
        store_step(before, after, key, entry),
    ensures
        before.config.max_entries == 0 ==> after == before,
        before.config.max_entries > 0 ==> {
            &&& after.entries.dom().contains(key)
            &&& after.entries[key] == entry
            &&& after.config == before.config
            &&& after.started == before.started
            &&& k != key && after.entries.dom().contains(k) ==> before.entries.dom().contains(k)
                && after.entries[k] == before.entries[k]
            &&& (before.entry_count as usize) < before.config.max_entries
                && before.entries.dom().contains(k) ==> after.entries.dom().contains(k)
        },
{
}

/// The models of what a cache is told and holds are what they are models of, part by part.
pub proof fn law_models(
    ctx: PluginContext,
    config: ResponseCacheConfig,
    entry: CacheEntry,
    i: int,
    p: int,
)
    ensures
        ctx@.surface == ctx.surface@,
        ctx@.tool_name == ctx.tool_name@,
        ctx@.subject_id is Some <==> ctx.identity.subject_id is Some,
        ctx@.subject_id is Some ==> ctx@.subject_id->Some_0 == ctx.identity.subject_id->Some_0@,
        config@.default_ttl_ms == config.default_ttl_ms,
        config@.max_entries == config.max_entries,
        config@.cache_scope == config.cache_scope@,
        config@.per_tool.len() == config.per_tool@.len(),
        0 <= i < config.per_tool@.len() ==> config@.per_tool[i].ttl_ms
            == config.per_tool@[i].ttl_ms && config@.per_tool[i].tools.len()
            == config.per_tool@[i].tools@.len() && (0 <= p < config.per_tool@[i].tools@.len()
            ==> config@.per_tool[i].tools[p] == config.per_tool@[i].tools@[p]@),
        entry@.result == entry.result@,
        entry@.stored_at == entry.stored_at,
        entry@.ttl_ms == entry.ttl_ms,
        entry@.call.surface == entry.call.surface@,
        entry@.call.tool_name == entry.call.tool_name@,
        entry@.call.arguments == entry.call.arguments@,
        entry@.call.identity is Some <==> entry.call.identity is Some,
        entry@.call.identity is Some ==> entry@.call.identity->Some_0
            == entry.call.identity->Some_0@,
{
}

/// A value that may be absent has the model of the value where it is there, whatever it is, and none
/// where it is not.
pub proof fn law_optional_values(value: JsonValue)
    ensures
        optional_view(Some(&value)) == Some(value@),
        optional_view(None) is None,
{
}

/// A lookup that was made counts as the hit or the miss that it was; one that was not made does not
/// count.
pub proof fn law_counting(
    state: State,
    request: Request,
    arguments: Json,
    meta: Option<Json>,
    now: u128,
)
    ensures
        ({
            let step = pre_step(state, request, arguments, meta, now);
            &&& counted_as(step.2) == Some("hit"@) <==> step.1.modified_result is Some
            &&& counted_as(step.2) is Some <==> step.2 == CacheLookup::Hit || step.2
                == CacheLookup::Miss
            &&& counted_as(step.2) is Some && step.1.modified_result is None ==> counted_as(step.2)
                == Some("miss"@)
        }),
{
    reveal_strlit("hit");
    reveal_strlit("miss");
    assert("hit"@.len() == 3 && "miss"@.len() == 4);
}

/// The model of an answer is what it carries, part by part.
pub proof fn law_answer_model(decision: GateDecision)
    ensures
        ({
            let GateDecision::Allow { modified_arguments, modified_result, metadata } = decision;
            &&& decision@.modified_arguments is Some <==> modified_arguments is Some
            &&& decision@.modified_result is Some <==> modified_result is Some
            &&& decision@.metadata is Some <==> metadata is Some
            &&& modified_arguments is Some ==> decision@.modified_arguments->Some_0
                == modified_arguments->Some_0@
            &&& modified_result is Some ==> decision@.modified_result->Some_0
                == modified_result->Some_0@
            &&& metadata is Some ==> decision@.metadata->Some_0 == metadata->Some_0@
        }),
{
}

/// A live entry that eviction drops was stored no later than any entry that it keeps; what it keeps
/// was there, and is live if the cache was full.
pub proof fn law_evicted_before_kept(
    before: State,
    after: State,
    now: u128,
    gone: u64,
    kept: u64,
)
    requires
        evict_step(before, after, now),
        before.entries.dom().contains(gone),
        before.entries[gone].ttl_ms > 0,
        now - before.entries[gone].stored_at < before.entries[gone].ttl_ms * 1_000_000,
        !after.entries.dom().contains(gone),
        after.entries.dom().contains(kept),
    ensures
        before.entries.dom().contains(kept),
        after.entries[kept] == before.entries[kept],
        before.entries[gone].stored_at <= before.entries[kept].stored_at,
        before.entries[kept].ttl_ms > 0,
        now - before.entries[kept].stored_at < before.entries[kept].ttl_ms * 1_000_000,
{
}

/// What eviction leaves. A cache that counts fewer entries than its limit stays as it is. Any other
/// keeps its live entries, all of them if they are fewer than the limit, and else all but one; and
/// its count is then that of its entries.
pub proof fn law_eviction_leaves(before: State, after: State, now: u128)
    requires
        before.entries.dom().finite(),
        before.entries.len() <= before.entry_count <= before.config.max_entries,
        evict_step(before, after, now),
    ensures
        ({
            let live = before.entries.dom().filter(
                |k: u64|
                    before.entries[k].ttl_ms > 0 && now - before.entries[k].stored_at
                        < before.entries[k].ttl_ms * 1_000_000,
            );
            let limit = before.config.max_entries;
            &&& before.entry_count < limit ==> after == before
            &&& before.entry_count == limit ==> {
                &&& after.entries.dom().subset_of(live)
                &&& after.entry_count == after.entries.len()
                &&& live.len() < limit ==> after.entries.dom() == live
                &&& live.len() >= limit && limit > 0 ==> after.entries.len() == live.len() - 1
            }
            &&& forall|k: u64| #[trigger]
                after.entries.dom().contains(k) ==> before.entries.dom().contains(k)
                    && after.entries[k] == before.entries[k]
            &&& after.config == before.config
            &&& after.manifest == before.manifest
            &&& after.started == before.started
        }),
{
    let live = before.entries.dom().filter(
        |k: u64|
            before.entries[k].ttl_ms > 0 && now - before.entries[k].stored_at
                < before.entries[k].ttl_ms * 1_000_000,
    );
    assert(live =~= live_entries(before.entries, now).dom());
    lemma_live_entries(before.entries, now);
}

/// A result is recorded exactly where it is not an object whose member `isError` is `true`, and the
/// tool's TTL is not zero.
pub proof fn law_cacheable(config: Config, request: Request, result: Json)
    ensures
        cacheable(config, request, result) <==> tool_ttl(config, request.tool_name) != 0 && !(
        result is Object && result->Object_0.dom().contains("isError"@)
            && result->Object_0["isError"@] == Json::Bool(true)),
{
}

/// An object whose member `isError` is `true`, whatever its other members are, is never recorded:
/// the cache stays as it is, and nothing is reported as written.
pub proof fn law_errors_leave_no_trace(
    before: State,
    after: State,
    request: Request,
    arguments: Json,
    members: Map<Seq<char>, Json>,
    now: u128,
)
    requires
        members.dom().contains("isError"@),
        members["isError"@] == Json::Bool(true),
        post_step(before, after, request, arguments, Json::Object(members), now),
    ensures
        after == before,
        recorded_ttl(before.config, request, Json::Object(members)) is None,
{
}

/// What recording a result leaves, where the result is no error, the tool's TTL is not zero and the
/// limit is not zero: an entry under the key of the call, with the call, the result, the time and
/// the TTL; and beside it what was there, except that a full cache loses its expired entries and
/// may lose one live entry more, the oldest.
pub proof fn law_recording_leaves(
    before: State,
    after: State,
    request: Request,
    arguments: Json,
    result: Json,
    now: u128,
)
    requires
        post_step(before, after, request, arguments, result, now),
        !(result is Object && result->Object_0.dom().contains("isError"@)
            && result->Object_0["isError"@] == Json::Bool(true)),
        tool_ttl(before.config, request.tool_name) != 0,
        before.config.max_entries > 0,
    ensures
        ({
            let key = call_key(before.config, request, arguments);
            let entry = after.entries[key];
            &&& after.entries.dom().contains(key)
            &&& entry.result == result
            &&& entry.stored_at == now
            &&& entry.ttl_ms == tool_ttl(before.config, request.tool_name)
            &&& entry.call.surface == request.surface
            &&& entry.call.tool_name == request.tool_name
            &&& entry.call.arguments == canonical_text(arguments)
            &&& entry.call.identity == if before.config.cache_scope == "per_identity"@ {
                request.subject_id
            } else {
                None
            }
            &&& recorded_ttl(before.config, request, result) == Some(entry.ttl_ms)
            &&& after.config == before.config
            &&& after.manifest == before.manifest
            &&& after.started == before.started
            &&& forall|k: u64|
                k != key && #[trigger] after.entries.dom().contains(k)
                    ==> before.entries.dom().contains(k) && after.entries[k] == before.entries[k]
            &&& (before.entry_count as usize) < before.config.max_entries ==> {
                &&& after.entry_count == before.entry_count.wrapping_add(1)
                &&& forall|k: u64| #[trigger]
                    before.entries.dom().contains(k) ==> after.entries.dom().contains(k)
            }
        }),
{
}

/// Under which TTL a result is reported as written: that of its tool, unless it is an error, the
/// TTL is zero or the limit is zero.
pub proof fn law_reported_ttl(config: Config, request: Request, result: Json)
    ensures
        recorded_ttl(config, request, result) == if tool_ttl(config, request.tool_name) == 0
            || config.max_entries == 0 || (result is Object && result->Object_0.dom().contains(
            "isError"@,
        ) && result->Object_0["isError"@] == Json::Bool(true)) {
            None
        } else {
            Some(tool_ttl(config, request.tool_name))
        },
{
}

/// What a full cache holds and counts after recording a result: of its live entries, all beside the
/// new one if they were fewer than the limit, and else all but one; nothing that had expired; and a
/// count of what it kept and the new one.
pub proof fn law_recording_when_full(
    before: State,
    after: State,
    request: Request,
    arguments: Json,
    result: Json,
    now: u128,
    k: u64,
)
    requires
        before.entries.dom().finite(),
        before.entries.len() <= before.entry_count,
        before.entry_count == before.config.max_entries,
        before.config.max_entries > 0,
        post_step(before, after, request, arguments, result, now),
        cacheable(before.config, request, result),
        k != call_key(before.config, request, arguments),
    ensures
        ({
            let live = before.entries.dom().filter(
                |k: u64|
                    before.entries[k].ttl_ms > 0 && now - before.entries[k].stored_at
                        < before.entries[k].ttl_ms * 1_000_000,
            );
            &&& after.entries.dom().contains(k) ==> live.contains(k)
            &&& live.len() < before.config.max_entries ==> (live.contains(k)
                ==> after.entries.dom().contains(k)) && after.entry_count == live.len() + 1
            &&& live.len() >= before.config.max_entries ==> after.entry_count == live.len()
        }),
{
    let live = before.entries.dom().filter(
        |k: u64|
            before.entries[k].ttl_ms > 0 && now - before.entries[k].stored_at
                < before.entries[k].ttl_ms * 1_000_000,
    );
    assert(live =~= live_entries(before.entries, now).dom());
    lemma_live_entries(before.entries, now);
}

/// An entry that recording a result for another key drops was expired, or was stored no later than
/// any other live entry; and no more than one live entry goes.
pub proof fn law_recording_drops(
    before: State,
    after: State,
    request: Request,
    arguments: Json,
    result: Json,
    now: u128,
    gone: u64,
    other: u64,
)
    requires
        post_step(before, after, request, arguments, result, now),
        gone != call_key(before.config, request, arguments),
        before.entries.dom().contains(gone),
        before.entries[gone].ttl_ms > 0,
        now - before.entries[gone].stored_at < before.entries[gone].ttl_ms * 1_000_000,
        !after.entries.dom().contains(gone),
        before.entries.dom().contains(other),
        before.entries[other].ttl_ms > 0,
        now - before.entries[other].stored_at < before.entries[other].ttl_ms * 1_000_000,
        other != gone,
    ensures
        after.entries.dom().contains(other),
        before.entries[gone].stored_at <= before.entries[other].stored_at,
        (before.entry_count as usize) >= before.config.max_entries,
{
}

/// What an evaluation before dispatch answers. A request whose `_meta` is an object with a member
/// `no_cache` that is `true` opts out; a tool whose TTL is zero is not cached. Otherwise a hit is an
/// entry under the key of the call, of that very call, whose TTL has not passed: it is answered with
/// its result and the remark that it comes from the cache. Everything else is answered with nothing.
pub proof fn law_answer(
    state: State,
    request: Request,
    arguments: Json,
    meta: Option<Json>,
    now: u128,
)
    ensures
        ({
            let step = pre_step(state, request, arguments, meta, now);
            let opted_out = meta is Some && meta->Some_0 is Object
                && meta->Some_0->Object_0.dom().contains("no_cache"@)
                && meta->Some_0->Object_0["no_cache"@] == Json::Bool(true);
            let disabled = tool_ttl(state.config, request.tool_name) == 0;
            let key = call_key(state.config, request, arguments);
            let entry = state.entries[key];
            let here = !opted_out && !disabled && state.entries.dom().contains(key);
            let live = entry.ttl_ms > 0 && now - entry.stored_at < entry.ttl_ms * 1_000_000;
            let same_call = entry.call.surface == request.surface && entry.call.tool_name
                == request.tool_name && entry.call.arguments == canonical_text(arguments)
                && entry.call.identity == if state.config.cache_scope == "per_identity"@ {
                request.subject_id
            } else {
                None
            };
            let hit = here && live && same_call;
            &&& step.2 == CacheLookup::OptedOut <==> opted_out
            &&& step.2 == CacheLookup::Disabled <==> !opted_out && disabled
            &&& step.2 == CacheLookup::Hit <==> hit
            &&& step.1.modified_arguments is None
            &&& step.1.modified_result == if hit {
                Some(entry.result)
            } else {
                None
            }
            &&& hit ==> {
                let remark = step.1.metadata->Some_0->Object_0;
                &&& step.1.metadata is Some
                &&& step.1.metadata->Some_0 is Object
                &&& remark.dom() == set!["cache"@]
                &&& remark["cache"@] == Json::Text("hit"@)
            }
            &&& !hit ==> step.1.metadata is None
        }),
{
    let step = pre_step(state, request, arguments, meta, now);
    if step.2 == CacheLookup::Hit {
        let remark = step.1.metadata->Some_0->Object_0;
        assert(remark.dom() =~= set!["cache"@]);
    }
}

/// What an evaluation before dispatch leaves: an expired entry under the key of a call that asks
/// for it goes, and the count with it; everything else stays.
pub proof fn law_reading_leaves(
    state: State,
    request: Request,
    arguments: Json,
    meta: Option<Json>,
    now: u128,
)
    ensures
        ({
            let after = pre_step(state, request, arguments, meta, now).0;
            let opted_out = meta is Some && meta->Some_0 is Object
                && meta->Some_0->Object_0.dom().contains("no_cache"@)
                && meta->Some_0->Object_0["no_cache"@] == Json::Bool(true);
            let key = call_key(state.config, request, arguments);
            let entry = state.entries[key];
            let drops = !opted_out && tool_ttl(state.config, request.tool_name) != 0
                && state.entries.dom().contains(key) && (entry.ttl_ms == 0 || now
                - entry.stored_at >= entry.ttl_ms * 1_000_000);
            &&& !drops ==> after == state
            &&& drops ==> {
                &&& after.entries == state.entries.remove(key)
                &&& state.entry_count > 0 ==> after.entry_count == state.entry_count - 1
                &&& after.config == state.config
                &&& after.manifest == state.manifest
                &&& after.started == state.started
            }
        }),
{
}

/// The TTL of a tool is that of the first rule with a pattern that matches its name.
pub proof fn law_ttl_of_the_first_match(config: Config, tool_name: Seq<char>, i: int, p: int)
    requires
        0 <= i < config.per_tool.len(),
        0 <= p < config.per_tool[i].tools.len(),
        glob_matches(config.per_tool[i].tools[p], tool_name),
        forall|j: int, q: int|
            0 <= j < i && 0 <= q < config.per_tool[j].tools.len() ==> !#[trigger] glob_matches(
                config.per_tool[j].tools[q],
                tool_name,
            ),
    ensures
        tool_ttl(config, tool_name) == config.per_tool[i].ttl_ms,
{
    assert(rule_matches(config.per_tool[i], tool_name));
    law_first_rule_wins(config.per_tool, config.default_ttl_ms, tool_name, i);
}

/// The TTL of a tool whose name no pattern of any rule matches is the default.
pub proof fn law_ttl_of_no_match(config: Config, tool_name: Seq<char>)
    requires
        forall|j: int, q: int|
            0 <= j < config.per_tool.len() && 0 <= q < config.per_tool[j].tools.len()
                ==> !#[trigger] glob_matches(config.per_tool[j].tools[q], tool_name),
    ensures
        tool_ttl(config, tool_name) == config.default_ttl_ms,
{
    law_default_ttl(config.per_tool, config.default_ttl_ms, tool_name);
}

/// A result that one caller had recorded is served to another who asks the same of the same tool,
/// on the same surface, before its TTL has passed: to anyone, under any scope but `per_identity`;
/// under that one, to whoever has the same subject, or also has none.
pub proof fn law_who_is_served(
    before: State,
    after: State,
    writer: Request,
    reader: Request,
    arguments: Json,
    result: Json,
    meta: Option<Json>,
    stored_at: u128,
    now: u128,
)
    requires
        post_step(before, after, writer, arguments, result, stored_at),
        !(result is Object && result->Object_0.dom().contains("isError"@)
            && result->Object_0["isError"@] == Json::Bool(true)),
        tool_ttl(before.config, writer.tool_name) != 0,
        before.config.max_entries > 0,
        reader.surface == writer.surface,
        reader.tool_name == writer.tool_name,
        before.config.cache_scope != "per_identity"@ || reader.subject_id == writer.subject_id,
        !(meta is Some && meta->Some_0 is Object && meta->Some_0->Object_0.dom().contains(
            "no_cache"@,
        ) && meta->Some_0->Object_0["no_cache"@] == Json::Bool(true)),
        now - stored_at < tool_ttl(before.config, writer.tool_name) * 1_000_000,
    ensures
        pre_step(after, reader, arguments, meta, now).0 == after,
        pre_step(after, reader, arguments, meta, now).1.modified_result == Some(result),
        pre_step(after, reader, arguments, meta, now).2 == CacheLookup::Hit,
{
    law_recording_leaves(before, after, writer, arguments, result, stored_at);
    assert(call_key(before.config, reader, arguments) == call_key(
        before.config,
        writer,
        arguments,
    ));
    law_answer(after, reader, arguments, meta, now);
    law_reading_leaves(after, reader, arguments, meta, now);
}

/// Once the TTL has passed since a result was recorded, nobody is served it, and looking for it
/// drops it.
pub proof fn law_nobody_is_served_late(
    before: State,
    after: State,
    writer: Request,
    reader: Request,
    arguments: Json,
    given: Json,
    result: Json,
    meta: Option<Json>,
    stored_at: u128,
    now: u128,
)
    requires
        post_step(before, after, writer, arguments, result, stored_at),
        cacheable(before.config, writer, result),
        before.config.max_entries > 0,
        call_key(before.config, reader, given) == call_key(before.config, writer, arguments),
        now - stored_at >= tool_ttl(before.config, writer.tool_name) * 1_000_000,
    ensures
        pre_step(after, reader, given, meta, now).1.modified_result is None,
        pre_step(after, reader, given, meta, now).2 == CacheLookup::Miss
            ==> !pre_step(after, reader, given, meta, now).0.entries.dom().contains(
            call_key(before.config, reader, given),
        ),
{
    law_cacheable(before.config, writer, result);
    law_recording_leaves(before, after, writer, arguments, result, stored_at);
    law_answer(after, reader, given, meta, now);
    law_reading_leaves(after, reader, given, meta, now);
}

/// What a call hands to the hasher: its surface, its tool, its arguments as canonical text and, under
/// the scope `per_identity`, its subject if it has one, each in UTF-8 with 0xFF behind it.
pub proof fn law_call_bytes(config: Config, request: Request, arguments: Json)
    ensures
        ({
            let shared = encode_utf8(request.surface).push(0xFF) + encode_utf8(
                request.tool_name,
            ).push(0xFF) + encode_utf8(canonical_text(arguments)).push(0xFF);
            call_bytes(config, request, arguments) == if config.cache_scope == "per_identity"@
                && request.subject_id is Some {
                shared + encode_utf8(request.subject_id->Some_0).push(0xFF)
            } else {
                shared
            }
        }),
{
    let none: Seq<Seq<char>> = seq![];
    let one = none.push(request.surface);
    let two = one.push(request.tool_name);
    let three = two.push(canonical_text(arguments));
    assert(one.drop_last() =~= none);
    assert(two.drop_last() =~= one);
    assert(three.drop_last() =~= two);
    assert(hash_bytes(none) =~= seq![]);
    assert(hash_bytes(one) =~= encode_utf8(request.surface).push(0xFF));
    let shared = encode_utf8(request.surface).push(0xFF) + encode_utf8(request.tool_name).push(0xFF)
        + encode_utf8(canonical_text(arguments)).push(0xFF);
    assert(hash_bytes(two) == hash_bytes(one) + encode_utf8(request.tool_name).push(0xFF));
    assert(hash_bytes(three) == hash_bytes(two) + encode_utf8(canonical_text(arguments)).push(
        0xFF,
    ));
    assert(hash_bytes(three) == shared);
    assert(three =~= seq![request.surface, request.tool_name, canonical_text(arguments)]);
    if let Some(id) = scoped_identity(config, request) {
        assert(three.push(id).drop_last() =~= three);
        assert(hash_bytes(three.push(id)) == shared + encode_utf8(id).push(0xFF));
    }
}

/// The key of a call is what the hasher makes of what hashing its strings writes, one after the
/// other.
pub proof fn law_call_key(config: Config, request: Request, arguments: Json)
    ensures
        ({
            let shared = string_writes(request.surface) + string_writes(request.tool_name)
                + string_writes(canonical_text(arguments));
            call_key(config, request, arguments)
                == <DefaultHasher as vstd::std_specs::hash::DefaultHasherAdditionalSpecFns>::spec_finish(
                if config.cache_scope == "per_identity"@ && request.subject_id is Some {
                    shared + string_writes(request.subject_id->Some_0)
                } else {
                    shared
                },
            )
        }),
{
    let none: Seq<Seq<char>> = seq![];
    let one = none.push(request.surface);
    let two = one.push(request.tool_name);
    let three = two.push(canonical_text(arguments));
    assert(one.drop_last() =~= none);
    assert(two.drop_last() =~= one);
    assert(three.drop_last() =~= two);
    assert(hash_writes(none) =~= seq![]);
    assert(hash_writes(one) =~= string_writes(request.surface));
    assert(hash_writes(two) == hash_writes(one) + string_writes(request.tool_name));
    assert(hash_writes(three) == hash_writes(two) + string_writes(canonical_text(arguments)));
    assert(three =~= seq![request.surface, request.tool_name, canonical_text(arguments)]);
    if let Some(id) = scoped_identity(config, request) {
        assert(three.push(id).drop_last() =~= three);
        assert(hash_writes(three.push(id)) == hash_writes(three) + string_writes(id));
    }
}

} // verus!
