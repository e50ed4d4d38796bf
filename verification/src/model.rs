//! The cache as a state, and what each operation does to it.
use crate::canonical::canonical_text;
use crate::config::{Config, ToolRule};
use crate::glob::glob_matches;
use crate::json::Json;
use crate::key::{request_key, CallId};
use crate::protocol::{cache_hit, plain_allow, Decision, PluginManifest, Request};
use crate::store::{live_entries, Entry};
use vstd::prelude::*;

verus! {

/// What a lookup came to.
#[derive(Debug, PartialEq, Eq)]
pub enum CacheLookup {
    /// The request opted out of the cache.
    OptedOut,
    /// The tool is not cached.
    Disabled,
    Hit,
    Miss,
}

/// What the lookup counts as: a hit or a miss, or nothing where the cache was not consulted.
pub open spec fn counted_as(lookup: CacheLookup) -> Option<Seq<char>> {
    match lookup {
        CacheLookup::OptedOut | CacheLookup::Disabled => None,
        CacheLookup::Hit => Some("hit"@),
        CacheLookup::Miss => Some("miss"@),
    }
}

impl CacheLookup {
    /// The result under which the lookup is counted, if it is.
    pub fn counted(&self) -> (result: Option<&'static str>)
        ensures
            match result {
                Some(r) => counted_as(*self) == Some(r@),
                None => counted_as(*self) is None,
            },
    {
        match self {
            CacheLookup::OptedOut | CacheLookup::Disabled => None,
            CacheLookup::Hit => Some("hit"),
            CacheLookup::Miss => Some("miss"),
        }
    }
}

/// The model of the cache.
#[verifier::ext_equal]
pub struct State {
    pub manifest: PluginManifest,
    pub config: Config,
    /// What is cached, by key.
    pub entries: Map<u64, Entry>,
    /// The running count that eviction goes by: one up for each write, one down for each
    /// removal, and set right by eviction. A write over an entry counts too.
    pub entry_count: u64,
    /// Where the clock of the cache starts.
    pub started: std::time::Instant,
}

impl State {
    /// The cache holds no more entries than it counts, and counts no more than its limit.
    pub open spec fn well_formed(self) -> bool {
        &&& self.entries.dom().finite()
        &&& self.entries.len() <= self.entry_count <= self.config.max_entries
    }
}

/// One of the rule's patterns matches the tool.
pub open spec fn rule_matches(rule: ToolRule, tool_name: Seq<char>) -> bool {
    exists|i: int|
        0 <= i < rule.tools.len() && #[trigger] glob_matches(rule.tools[i], tool_name)
}

/// The TTL that the first matching rule gives a tool, or the default where none matches.
pub open spec fn first_ttl(rules: Seq<ToolRule>, default: u64, tool_name: Seq<char>) -> u64
    decreases rules.len(),
{
    if rules.len() == 0 {
        default
    } else if rule_matches(rules[0], tool_name) {
        rules[0].ttl_ms
    } else {
        first_ttl(rules.drop_first(), default, tool_name)
    }
}

/// The TTL of a tool's results, in milliseconds.
pub open spec fn tool_ttl(config: Config, tool_name: Seq<char>) -> u64 {
    first_ttl(config.per_tool, config.default_ttl_ms, tool_name)
}

/// The part of the caller's identity that the key holds: the subject id, under the scope
/// `per_identity` alone.
pub open spec fn scoped_identity(config: Config, request: Request) -> Option<Seq<char>> {
    if config.cache_scope == "per_identity"@ {
        request.subject_id
    } else {
        None
    }
}

/// The key of a call.
pub open spec fn call_key(config: Config, request: Request, arguments: Json) -> u64 {
    request_key(
        request.surface,
        request.tool_name,
        arguments,
        scoped_identity(config, request),
    )
}

/// What identifies a call.
pub open spec fn call_id(config: Config, request: Request, arguments: Json) -> CallId {
    CallId {
        surface: request.surface,
        tool_name: request.tool_name,
        arguments: canonical_text(arguments),
        identity: scoped_identity(config, request),
    }
}

/// The value is an object whose member of that name is `true`.
pub open spec fn flagged(value: Json, name: Seq<char>) -> bool {
    match value {
        Json::Object(members) => members.dom().contains(name) && members[name] == Json::Bool(true),
        _ => false,
    }
}

/// The request opts out of the cache.
pub open spec fn opts_out(meta: Option<Json>) -> bool {
    match meta {
        Some(m) => flagged(m, "no_cache"@),
        None => false,
    }
}

/// The result reports an error.
pub open spec fn is_error(result: Json) -> bool {
    flagged(result, "isError"@)
}

/// The state after the entry under the key is taken out.
pub open spec fn without(state: State, key: u64) -> State {
    State {
        entries: state.entries.remove(key),
        entry_count: state.entry_count.wrapping_sub(1),
        ..state
    }
}

/// Looking a call up under its key: an entry of that call that has not expired is served; an entry
/// that has is dropped. An entry of another call, whose key happens to be the same, is not served.
pub open spec fn lookup_step(state: State, key: u64, call: CallId, now: u128) -> (
    State,
    Decision,
    CacheLookup,
) {
    if !state.entries.dom().contains(key) {
        (state, plain_allow(), CacheLookup::Miss)
    } else if state.entries[key].expired(now) {
        (without(state, key), plain_allow(), CacheLookup::Miss)
    } else if state.entries[key].call != call {
        (state, plain_allow(), CacheLookup::Miss)
    } else {
        (state, cache_hit(state.entries[key].result), CacheLookup::Hit)
    }
}

/// Evaluating a call before dispatch.
pub open spec fn pre_step(
    state: State,
    request: Request,
    arguments: Json,
    meta: Option<Json>,
    now: u128,
) -> (State, Decision, CacheLookup) {
    if opts_out(meta) {
        (state, plain_allow(), CacheLookup::OptedOut)
    } else if tool_ttl(state.config, request.tool_name) == 0 {
        (state, plain_allow(), CacheLookup::Disabled)
    } else {
        lookup_step(
            state,
            call_key(state.config, request, arguments),
            call_id(state.config, request, arguments),
            now,
        )
    }
}

/// The key is that of an entry than which no other was stored earlier.
pub open spec fn is_oldest(entries: Map<u64, Entry>, key: u64) -> bool {
    &&& entries.dom().contains(key)
    &&& forall|k: u64| #[trigger]
        entries.dom().contains(k) ==> entries[key].stored_at <= entries[k].stored_at
}

/// Eviction, which does nothing while the count is below the limit. Otherwise it drops what has
/// expired; and where as many entries as the limit are left, the oldest of them. Which of several
/// equally old entries goes is open.
pub open spec fn evict_step(before: State, after: State, now: u128) -> bool {
    let limit = before.config.max_entries;
    let live = live_entries(before.entries, now);
    let purged = State { entries: live, entry_count: live.len() as u64, ..before };
    if (before.entry_count as usize) < limit {
        after == before
    } else if live.len() < limit || live.len() == 0 {
        after == purged
    } else {
        exists|k: u64| #[trigger] is_oldest(live, k) && after == without(purged, k)
    }
}

/// Writing an entry, after eviction. A cache whose limit is zero has room for none.
pub open spec fn store_step(
    before: State,
    after: State,
    key: u64,
    entry: Entry,
) -> bool {
    if before.config.max_entries == 0 {
        after == before
    } else {
        exists|middle: State| #[trigger]
            evict_step(before, middle, entry.stored_at) && after == (State {
                entries: middle.entries.insert(key, entry),
                entry_count: middle.entry_count.wrapping_add(1),
                ..middle
            })
    }
}

/// A result is to be cached: it is no error, and its tool is cached.
pub open spec fn cacheable(config: Config, request: Request, result: Json) -> bool {
    !is_error(result) && tool_ttl(config, request.tool_name) > 0
}

/// The TTL under which a result is written, in milliseconds, if it is written.
pub open spec fn recorded_ttl(config: Config, request: Request, result: Json) -> Option<u64> {
    if cacheable(config, request, result) && config.max_entries > 0 {
        Some(tool_ttl(config, request.tool_name))
    } else {
        None
    }
}

/// Evaluating a call after dispatch: a result that is no error is written, unless the tool is
/// not cached.
pub open spec fn post_step(
    before: State,
    after: State,
    request: Request,
    arguments: Json,
    result: Json,
    now: u128,
) -> bool {
    if cacheable(before.config, request, result) {
        store_step(
            before,
            after,
            call_key(before.config, request, arguments),
            Entry {
                call: call_id(before.config, request, arguments),
                result,
                stored_at: now,
                ttl_ms: tool_ttl(before.config, request.tool_name),
            },
        )
    } else {
        after == before
    }
}

} // verus!
