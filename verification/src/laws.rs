//! What holds of the cache as a whole.
use crate::canonical_laws::{
    law_canonical_text_tells_values_apart, law_member_order_is_immaterial,
};
use crate::config::{Config, ToolRule};
use crate::json::{spellable, Json};
use crate::key::{hash_bytes, key_parts, law_key_tells_calls_apart, CallId};
use crate::model::{
    cacheable, call_id, call_key, evict_step, first_ttl, flagged, is_error, is_oldest, lookup_step,
    opts_out, post_step, pre_step, rule_matches, scoped_identity, store_step, tool_ttl, without,
    CacheLookup, State,
};
use crate::plugin::is_fresh;
use crate::protocol::{cache_hit, plain_allow, Request};
use crate::store::{live_entries, Entry, NANOS_PER_MILLI};
use vstd::prelude::*;

verus! {

/// What has not expired is finitely much, and no more than there was.
pub(crate) proof fn lemma_live_entries(entries: Map<u64, Entry>, now: u128)
    requires
        entries.dom().finite(),
    ensures
        live_entries(entries, now).dom().finite(),
        live_entries(entries, now).len() <= entries.len(),
        live_entries(entries, now).dom().subset_of(entries.dom()),
{
    let live = live_entries(entries, now).dom();
    assert(live.subset_of(entries.dom()));
    vstd::set_lib::lemma_len_subset(live, entries.dom());
}

/// Eviction keeps the count in order, and makes room where the limit allows for any.
pub proof fn law_evict_well_formed(before: State, after: State, now: u128)
    requires
        before.well_formed(),
        evict_step(before, after, now),
    ensures
        after.well_formed(),
        after.entries.len() <= before.entries.len(),
        before.config.max_entries > 0 ==> after.entry_count < after.config.max_entries,
{
    lemma_live_entries(before.entries, now);
}

/// A write keeps the count in order.
pub proof fn law_store_well_formed(before: State, after: State, key: u64, entry: Entry)
    requires
        before.well_formed(),
        store_step(before, after, key, entry),
    ensures
        after.well_formed(),
{
    if before.config.max_entries > 0 {
        let middle = choose|middle: State| #[trigger]
            evict_step(before, middle, entry.stored_at) && after == (State {
                entries: middle.entries.insert(key, entry),
                entry_count: middle.entry_count.wrapping_add(1),
                ..middle
            });
        law_evict_well_formed(before, middle, entry.stored_at);
    }
}

/// A lookup keeps the count in order.
pub proof fn law_lookup_well_formed(state: State, key: u64, call: CallId, now: u128)
    requires
        state.well_formed(),
    ensures
        lookup_step(state, key, call, now).0.well_formed(),
{
}

/// What a write leaves: the entry under its key, and beside it nothing but entries that were
/// there.
proof fn lemma_stored(before: State, after: State, key: u64, entry: Entry)
    requires
        store_step(before, after, key, entry),
        before.config.max_entries > 0,
    ensures
        after.entries.dom().contains(key),
        after.entries[key] == entry,
        forall|k: u64|
            k != key && #[trigger] after.entries.dom().contains(k) ==> before.entries.dom().contains(
                k,
            ) && after.entries[k] == before.entries[k],
{
}

/// A cache starts cold: nothing is served before something is recorded.
pub proof fn law_starts_cold(
    state: State,
    config: Config,
    request: Request,
    arguments: Json,
    meta: Option<Json>,
    now: u128,
)
    requires
        is_fresh(state, config),
    ensures
        pre_step(state, request, arguments, meta, now).0 == state,
        pre_step(state, request, arguments, meta, now).1 == plain_allow(),
        pre_step(state, request, arguments, meta, now).2 != CacheLookup::Hit,
{
}

/// A read gives back what a write wrote: once a result is recorded for a call, the same call (the
/// same surface, tool, arguments and scoped identity) is answered with that result for as long as
/// its TTL lasts, and the cache stays as it is.
pub proof fn law_write_then_read(
    before: State,
    after: State,
    writer: Request,
    reader: Request,
    arguments: Json,
    result: Json,
    meta: Option<Json>,
    stored_at: u128,
    now: u128,
)
    requires
        post_step(before, after, writer, arguments, result, stored_at),
        cacheable(before.config, writer, result),
        before.config.max_entries > 0,
        reader.surface == writer.surface,
        reader.tool_name == writer.tool_name,
        scoped_identity(before.config, reader) == scoped_identity(before.config, writer),
        !opts_out(meta),
        now - stored_at < tool_ttl(before.config, writer.tool_name) * NANOS_PER_MILLI,
    ensures
        pre_step(after, reader, arguments, meta, now) == (
            after,
            cache_hit(result),
            CacheLookup::Hit,
        ),
{
    let ttl_ms = tool_ttl(before.config, writer.tool_name);
    lemma_stored(
        before,
        after,
        call_key(before.config, writer, arguments),
        Entry { call: call_id(before.config, writer, arguments), result, stored_at, ttl_ms },
    );
}

/// Once its TTL has passed, a recorded result is no longer served, and looking for it drops it.
pub proof fn law_write_then_expire(
    before: State,
    after: State,
    request: Request,
    arguments: Json,
    result: Json,
    meta: Option<Json>,
    stored_at: u128,
    now: u128,
)
    requires
        post_step(before, after, request, arguments, result, stored_at),
        cacheable(before.config, request, result),
        before.config.max_entries > 0,
        !opts_out(meta),
        now - stored_at >= tool_ttl(before.config, request.tool_name) * NANOS_PER_MILLI,
    ensures
        pre_step(after, request, arguments, meta, now) == (
            without(after, call_key(before.config, request, arguments)),
            plain_allow(),
            CacheLookup::Miss,
        ),
        !pre_step(after, request, arguments, meta, now).0.entries.dom().contains(
            call_key(before.config, request, arguments),
        ),
{
    let ttl_ms = tool_ttl(before.config, request.tool_name);
    lemma_stored(
        before,
        after,
        call_key(before.config, request, arguments),
        Entry { call: call_id(before.config, request, arguments), result, stored_at, ttl_ms },
    );
}

/// An error is never cached: the cache stays as it is.
pub proof fn law_errors_not_cached(
    before: State,
    after: State,
    request: Request,
    arguments: Json,
    result: Json,
    now: u128,
)
    requires
        post_step(before, after, request, arguments, result, now),
        is_error(result),
    ensures
        after == before,
{
}

/// A TTL of zero turns caching off for a tool: nothing is written for it, and nothing is served.
pub proof fn law_zero_ttl_disables(
    before: State,
    after: State,
    request: Request,
    arguments: Json,
    result: Json,
    meta: Option<Json>,
    stored_at: u128,
    now: u128,
)
    requires
        tool_ttl(before.config, request.tool_name) == 0,
        post_step(before, after, request, arguments, result, stored_at),
    ensures
        after == before,
        pre_step(after, request, arguments, meta, now).0 == after,
        pre_step(after, request, arguments, meta, now).1 == plain_allow(),
        !opts_out(meta) ==> pre_step(after, request, arguments, meta, now).2
            == CacheLookup::Disabled,
{
}

/// A request that opts out is answered without the cache, which stays as it is.
pub proof fn law_opt_out(
    state: State,
    request: Request,
    arguments: Json,
    meta: Json,
    now: u128,
)
    requires
        flagged(meta, "no_cache"@),
    ensures
        pre_step(state, request, arguments, Some(meta), now) == (
            state,
            plain_allow(),
            CacheLookup::OptedOut,
        ),
{
}

/// What is served stands in the cache under the key of the call, was recorded for that call, and
/// has not expired.
pub proof fn law_hits_are_fresh(
    state: State,
    request: Request,
    arguments: Json,
    meta: Option<Json>,
    now: u128,
)
    ensures
        ({
            let step = pre_step(state, request, arguments, meta, now);
            let key = call_key(state.config, request, arguments);
            &&& step.2 == CacheLookup::Hit <==> step.1.modified_result is Some
            &&& step.2 == CacheLookup::Hit ==> {
                &&& state.entries.dom().contains(key)
                &&& state.entries[key].call == call_id(state.config, request, arguments)
                &&& !state.entries[key].expired(now)
                &&& step.1.modified_result == Some(state.entries[key].result)
            }
        }),
{
}

/// A read writes nothing: it leaves every entry but an expired one under its own key.
pub proof fn law_reads_keep_the_rest(
    state: State,
    request: Request,
    arguments: Json,
    meta: Option<Json>,
    now: u128,
    key: u64,
)
    requires
        state.entries.dom().contains(key),
        key != call_key(state.config, request, arguments) || !state.entries[key].expired(now),
    ensures
        ({
            let after = pre_step(state, request, arguments, meta, now).0;
            after.entries.dom().contains(key) && after.entries[key] == state.entries[key]
        }),
{
}

/// Recording a result for one call makes no other call hit: what is served for another call was
/// served for it before, and is the same.
pub proof fn law_writes_do_not_leak(
    before: State,
    after: State,
    request: Request,
    arguments: Json,
    result: Json,
    stored_at: u128,
    reader: Request,
    given: Json,
    meta: Option<Json>,
    now: u128,
)
    requires
        post_step(before, after, request, arguments, result, stored_at),
        call_id(before.config, reader, given) != call_id(before.config, request, arguments),
        pre_step(after, reader, given, meta, now).2 == CacheLookup::Hit,
    ensures
        pre_step(before, reader, given, meta, now).1 == pre_step(
            after,
            reader,
            given,
            meta,
            now,
        ).1,
        pre_step(before, reader, given, meta, now).2 == CacheLookup::Hit,
{
    let ttl_ms = tool_ttl(before.config, request.tool_name);
    if cacheable(before.config, request, result) && before.config.max_entries > 0 {
        lemma_stored(
            before,
            after,
            call_key(before.config, request, arguments),
            Entry { call: call_id(before.config, request, arguments), result, stored_at, ttl_ms },
        );
    }
}

/// A write leaves every other entry that has not expired, except that a cache with as many of
/// them as its limit loses the oldest.
pub proof fn law_writes_keep_the_rest(
    before: State,
    after: State,
    request: Request,
    arguments: Json,
    result: Json,
    now: u128,
    key: u64,
)
    requires
        post_step(before, after, request, arguments, result, now),
        key != call_key(before.config, request, arguments),
        before.entries.dom().contains(key),
        !before.entries[key].expired(now),
    ensures
        ({
            let live = live_entries(before.entries, now);
            ||| after.entries.dom().contains(key) && after.entries[key] == before.entries[key]
            ||| live.len() >= before.config.max_entries && is_oldest(live, key)
        }),
{
}

/// Neither reads nor writes touch the manifest, the configuration or the start of the clock.
pub proof fn law_settings_are_fixed(
    before: State,
    after: State,
    request: Request,
    arguments: Json,
    result: Json,
    meta: Option<Json>,
    now: u128,
)
    requires
        post_step(before, after, request, arguments, result, now) || after == pre_step(
            before,
            request,
            arguments,
            meta,
            now,
        ).0,
    ensures
        after.manifest == before.manifest,
        after.config == before.config,
        after.started == before.started,
{
}

/// The cache bounds itself: it holds no more entries than its limit, after every read and after
/// every write.
pub proof fn law_bounded(
    before: State,
    after: State,
    request: Request,
    arguments: Json,
    result: Json,
    meta: Option<Json>,
    now: u128,
)
    requires
        before.well_formed(),
        post_step(before, after, request, arguments, result, now) || after == pre_step(
            before,
            request,
            arguments,
            meta,
            now,
        ).0,
    ensures
        after.entries.len() <= after.config.max_entries,
        after.well_formed(),
{
    if post_step(before, after, request, arguments, result, now) && cacheable(
        before.config,
        request,
        result,
    ) {
        law_store_well_formed(
            before,
            after,
            call_key(before.config, request, arguments),
            Entry {
                call: call_id(before.config, request, arguments),
                result,
                stored_at: now,
                ttl_ms: tool_ttl(before.config, request.tool_name),
            },
        );
    }
}

/// A cache whose limit is zero takes nothing in.
pub proof fn law_zero_limit_disables(
    before: State,
    after: State,
    request: Request,
    arguments: Json,
    result: Json,
    now: u128,
)
    requires
        before.config.max_entries == 0,
        post_step(before, after, request, arguments, result, now),
    ensures
        after == before,
{
}

/// A full cache makes room for a write: where expired entries do not, the oldest entry goes,
/// whenever it was stored.
pub proof fn law_full_cache_makes_room(before: State, after: State, now: u128)
    requires
        before.well_formed(),
        before.config.max_entries > 0,
        evict_step(before, after, now),
    ensures
        after.entries.len() < after.config.max_entries,
{
    law_evict_well_formed(before, after, now);
}

/// Eviction drops expired entries first: an entry that has not expired goes only where as many
/// of them as the limit are left, and then it is the oldest.
pub proof fn law_expired_go_first(before: State, after: State, now: u128, key: u64)
    requires
        evict_step(before, after, now),
        before.entries.dom().contains(key),
        !before.entries[key].expired(now),
        !after.entries.dom().contains(key),
    ensures
        live_entries(before.entries, now).len() >= before.config.max_entries,
        is_oldest(live_entries(before.entries, now), key),
{
}

/// Eviction drops a single entry that has not expired, at most.
pub proof fn law_single_eviction(before: State, after: State, now: u128, key1: u64, key2: u64)
    requires
        evict_step(before, after, now),
        before.entries.dom().contains(key1),
        before.entries.dom().contains(key2),
        !before.entries[key1].expired(now),
        !before.entries[key2].expired(now),
        !after.entries.dom().contains(key1),
        !after.entries.dom().contains(key2),
    ensures
        key1 == key2,
{
}

/// What eviction leaves is as it was.
pub proof fn law_eviction_changes_nothing_else(before: State, after: State, now: u128, key: u64)
    requires
        evict_step(before, after, now),
        after.entries.dom().contains(key),
    ensures
        before.entries.dom().contains(key),
        after.entries[key] == before.entries[key],
{
}

/// A full cache is rid of everything that has expired.
pub proof fn law_full_cache_is_purged(before: State, after: State, now: u128, key: u64)
    requires
        before.entry_count as usize >= before.config.max_entries,
        evict_step(before, after, now),
        after.entries.dom().contains(key),
    ensures
        !after.entries[key].expired(now),
{
}

/// The first rule with a matching pattern gives a tool its TTL.
pub proof fn law_first_rule_wins(
    rules: Seq<ToolRule>,
    default: u64,
    tool_name: Seq<char>,
    i: int,
)
    requires
        0 <= i < rules.len(),
        rule_matches(rules[i], tool_name),
        forall|j: int| 0 <= j < i ==> !rule_matches(#[trigger] rules[j], tool_name),
    ensures
        first_ttl(rules, default, tool_name) == rules[i].ttl_ms,
    decreases rules.len(),
{
    if i > 0 {
        let rest = rules.drop_first();
        assert(!rule_matches(rules[0], tool_name));
        assert forall|j: int| 0 <= j < i - 1 implies !rule_matches(
            #[trigger] rest[j],
            tool_name,
        ) by {
            assert(rest[j] == rules[j + 1]);
        }
        law_first_rule_wins(rest, default, tool_name, i - 1);
    }
}

/// A tool that no rule matches has the default TTL.
pub proof fn law_default_ttl(rules: Seq<ToolRule>, default: u64, tool_name: Seq<char>)
    requires
        forall|j: int| 0 <= j < rules.len() ==> !rule_matches(#[trigger] rules[j], tool_name),
    ensures
        first_ttl(rules, default, tool_name) == default,
    decreases rules.len(),
{
    if rules.len() > 0 {
        let rest = rules.drop_first();
        assert(!rule_matches(rules[0], tool_name));
        assert forall|j: int| 0 <= j < rest.len() implies !rule_matches(
            #[trigger] rest[j],
            tool_name,
        ) by {
            assert(rest[j] == rules[j + 1]);
        }
        law_default_ttl(rest, default, tool_name);
    }
}

/// Under any scope but `per_identity` all callers share entries.
pub proof fn law_shared_scope(config: Config, one: Request, other: Request, arguments: Json)
    requires
        config.cache_scope != "per_identity"@,
        one.surface == other.surface,
        one.tool_name == other.tool_name,
    ensures
        call_key(config, one, arguments) == call_key(config, other, arguments),
{
}

/// Callers without a subject share entries under every scope.
pub proof fn law_anonymous_callers_share(
    config: Config,
    one: Request,
    other: Request,
    arguments: Json,
)
    requires
        one.surface == other.surface,
        one.tool_name == other.tool_name,
        one.subject_id is None,
        other.subject_id is None,
    ensures
        call_key(config, one, arguments) == call_key(config, other, arguments),
{
}

/// The bytes that a call hands to the hasher.
pub open spec fn call_bytes(config: Config, request: Request, arguments: Json) -> Seq<u8> {
    hash_bytes(
        key_parts(
            request.surface,
            request.tool_name,
            arguments,
            scoped_identity(config, request),
        ),
    )
}

/// Calls are the same for the cache only where they are the same call: surface, tool, arguments
/// and the part of the identity that the scope takes in.
pub proof fn law_call_is_told_by_its_id(
    config: Config,
    one: Request,
    other: Request,
    arguments1: Json,
    arguments2: Json,
)
    requires
        spellable(arguments1),
        spellable(arguments2),
        call_id(config, one, arguments1) == call_id(config, other, arguments2),
    ensures
        one.surface == other.surface,
        one.tool_name == other.tool_name,
        arguments1 == arguments2,
        scoped_identity(config, one) == scoped_identity(config, other),
{
    law_canonical_text_tells_values_apart(arguments1, arguments2);
}

/// Under the scope `per_identity` callers of different subjects are told apart: their calls hand
/// different bytes to the hasher.
pub proof fn law_per_identity_isolation(
    config: Config,
    one: Request,
    other: Request,
    arguments1: Json,
    arguments2: Json,
)
    requires
        config.cache_scope == "per_identity"@,
        one.subject_id != other.subject_id,
    ensures
        call_bytes(config, one, arguments1) != call_bytes(config, other, arguments2),
{
    if call_bytes(config, one, arguments1) == call_bytes(config, other, arguments2) {
        law_key_tells_calls_apart(
            one.surface,
            one.tool_name,
            arguments1,
            scoped_identity(config, one),
            other.surface,
            other.tool_name,
            arguments2,
            scoped_identity(config, other),
        );
    }
}

/// Calls on different surfaces, of different tools or with different arguments are told apart:
/// they hand different bytes to the hasher.
pub proof fn law_calls_are_told_apart(
    config: Config,
    one: Request,
    other: Request,
    arguments1: Json,
    arguments2: Json,
)
    requires
        spellable(arguments1),
        spellable(arguments2),
        one.surface != other.surface || one.tool_name != other.tool_name || arguments1
            != arguments2,
    ensures
        call_bytes(config, one, arguments1) != call_bytes(config, other, arguments2),
{
    if call_bytes(config, one, arguments1) == call_bytes(config, other, arguments2) {
        law_key_tells_calls_apart(
            one.surface,
            one.tool_name,
            arguments1,
            scoped_identity(config, one),
            other.surface,
            other.tool_name,
            arguments2,
            scoped_identity(config, other),
        );
        law_canonical_text_tells_values_apart(arguments1, arguments2);
    }
}

/// The order in which members of the arguments are given makes no difference to the key.
pub proof fn law_argument_order_is_immaterial(
    config: Config,
    request: Request,
    members: Map<Seq<char>, Json>,
    name1: Seq<char>,
    value1: Json,
    name2: Seq<char>,
    value2: Json,
    context: spec_fn(Json) -> Json,
)
    requires
        name1 != name2,
    ensures
        call_key(
            config,
            request,
            context(Json::Object(members.insert(name1, value1).insert(name2, value2))),
        ) == call_key(
            config,
            request,
            context(Json::Object(members.insert(name2, value2).insert(name1, value1))),
        ),
{
    law_member_order_is_immaterial(members, name1, value1, name2, value2, context);
}

} // verus!
