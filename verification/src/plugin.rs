//! The response cache: which results it keeps, and when it serves them.
use crate::canonical::canonical_json;
use crate::config::{Config, ResponseCacheConfig};
use crate::decode::{decode_block, decode_config, optional_view, read_config};
use crate::glob::{glob_match, glob_matches};
use crate::json::JsonValue;
use crate::key::{cache_key, Call};
use crate::laws::{law_evict_well_formed, law_store_well_formed};
use crate::model::{
    call_id, call_key, evict_step, first_ttl, flagged, is_oldest, lookup_step, post_step, pre_step,
    recorded_ttl, rule_matches, scoped_identity, store_step, tool_ttl, CacheLookup, State,
};
use crate::protocol::{plain_allow, GateDecision, PluginClass, PluginContext, PluginManifest};
use crate::store::{
    count, discard, held, lists_stamps, lookup, new_map, retain_live, stamps, store, CacheEntry,
    Entry, NANOS_PER_MILLI,
};
use dashmap::DashMap;
use std::collections::hash_map::RandomState;
use std::time::Instant;
use vstd::prelude::*;

verus! {

/// The plugin's id.
pub const PLUGIN_ID: &'static str = "dev.mcpg.response-cache";

/// The plugin's version.
pub const PLUGIN_VERSION: &'static str = "0.1.0";

/// The name of the crate, by which its modules begin.
pub const MODULE_PATH_PREFIX: &'static str = "response_cache";

/// `std::time::Instant`, a reading of the monotonic clock.
#[verifier::external_type_specification]
#[verifier::external_body]
pub struct ExInstant(std::time::Instant);

/// `Instant::now`. Nothing is stated of a reading of the clock.
#[verifier::external_body]
fn start_clock() -> Instant {
    Instant::now()
}

/// `Instant::elapsed`, in nanoseconds. Nothing is stated of a reading of the clock.
#[verifier::external_body]
fn nanos_since(started: &Instant) -> u128 {
    started.elapsed().as_nanos()
}

/// The instant is one that the clock gave as the present.
pub closed spec fn is_start(started: Instant) -> bool {
    call_ensures(start_clock, (), started)
}

/// The reading is one that the clock gave, measured from that start.
pub closed spec fn is_reading(started: Instant, now: u128) -> bool {
    call_ensures(nanos_since, (&started,), now)
}

/// A start is what `Instant::now` gives, and a reading what `Instant::elapsed` gives of a start, as
/// it is: neither is made from such a value by any computation.
proof fn law_readings_are_the_clocks(started: Instant, now: u128)
    ensures
        is_start(started) <==> call_ensures(start_clock, (), started),
        is_reading(started, now) <==> call_ensures(nanos_since, (&started,), now),
{
}

/// The cache of tool results.
pub struct ResponseCachePlugin {
    manifest: PluginManifest,
    config: ResponseCacheConfig,
    cache: DashMap<u64, CacheEntry, RandomState>,
    entry_count: u64,
    started: Instant,
}

impl View for ResponseCachePlugin {
    type V = State;

    closed spec fn view(&self) -> State {
        State {
            manifest: self.manifest,
            config: self.config@,
            entries: held(self.cache),
            entry_count: self.entry_count,
            started: self.started,
        }
    }
}

/// The model of a cache is what it holds, part by part.
proof fn law_cache_model(plugin: ResponseCachePlugin)
    ensures
        plugin@.manifest == plugin.manifest,
        plugin@.config == plugin.config@,
        plugin@.entries == held(plugin.cache),
        plugin@.entry_count == plugin.entry_count,
        plugin@.started == plugin.started,
{
}

/// An evaluation before dispatch, with what there is to observe of it: what the lookup came to,
/// and how long the evaluation took. Every evaluation gives one such sample, whatever it came to.
pub struct PreEvaluation {
    pub decision: GateDecision,
    pub lookup: CacheLookup,
    pub elapsed_ms: u128,
}

/// The manifest of the cache: a tool gate of that id, version and name, that needs and provides
/// nothing.
pub open spec fn is_cache_manifest(m: PluginManifest) -> bool {
    &&& m.id@ == PLUGIN_ID@
    &&& m.version@ == PLUGIN_VERSION@
    &&& m.name@ == "Response Cache"@
    &&& m.plugin_class == PluginClass::ToolGate
    &&& m.protocol_version@ == "1.0"@
    &&& m.license is None
    &&& m.required_capabilities@.len() == 0
    &&& m.tags@.len() == 0
    &&& m.provides@.len() == 0
    &&& m.provides_schemes@.len() == 0
    &&& m.module_path_prefix@ == MODULE_PATH_PREFIX@
    &&& m.backend_profile is None
}

/// A cache of that configuration that holds nothing.
pub open spec fn is_fresh(state: State, config: Config) -> bool {
    &&& is_cache_manifest(state.manifest)
    &&& state.config == config
    &&& state.entries == Map::<u64, Entry>::empty()
    &&& state.entry_count == 0
}

impl ResponseCachePlugin {
    /// An empty cache.
    pub fn new(config: ResponseCacheConfig) -> (plugin: Self)
        ensures
            is_fresh(plugin@, config@),
            is_start(plugin@.started),
            plugin@.well_formed(),
    {
        let clock = start_clock;
        let started = clock();
        assert(is_start(started));
        ResponseCachePlugin {
            manifest: PluginManifest {
                id: PLUGIN_ID.to_owned(),
                version: PLUGIN_VERSION.to_owned(),
                name: "Response Cache".to_owned(),
                plugin_class: PluginClass::ToolGate,
                protocol_version: "1.0".to_owned(),
                license: None,
                required_capabilities: Vec::new(),
                tags: Vec::new(),
                provides: Vec::new(),
                provides_schemes: Vec::new(),
                module_path_prefix: MODULE_PATH_PREFIX.to_owned(),
                backend_profile: None,
            },
            config,
            cache: new_map(),
            entry_count: 0,
            started,
        }
    }

    /// An empty cache, configured by a JSON value, or a message on what is wrong with the value.
    pub fn from_config(config_value: &JsonValue) -> (plugin: Result<Self, String>)
        ensures
            match plugin {
                Ok(p) => match decode_config(config_value@) {
                    Ok(config) => is_fresh(p@, config) && is_start(p@.started) && p@.well_formed(),
                    Err(_) => false,
                },
                Err(e) => decode_config(config_value@) == Err::<Config, Seq<char>>(e@),
            },
    {
        match read_config(config_value) {
            Ok(config) => Ok(Self::new(config)),
            Err(e) => Err(e),
        }
    }

    /// An empty cache, configured by the `config:` block of a plugin entry. A block that is absent
    /// or holds nothing yields the defaults; one that is malformed yields none.
    pub fn from_config_json(config_json: Option<&JsonValue>) -> (plugin: Result<Self, String>)
        ensures
            match plugin {
                Ok(p) => match decode_block(optional_view(config_json)) {
                    Ok(config) => is_fresh(p@, config) && is_start(p@.started) && p@.well_formed(),
                    Err(_) => false,
                },
                Err(e) => decode_block(optional_view(config_json)) == Err::<Config, Seq<char>>(e@),
            },
    {
        broadcast use crate::json::lemma_value_view;

        match config_json {
            None | Some(JsonValue::Null) => Ok(Self::new(ResponseCacheConfig::default())),
            Some(value) => Self::from_config(value),
        }
    }

    /// The plugin's manifest.
    pub fn manifest(&self) -> (manifest: &PluginManifest)
        ensures
            *manifest == self@.manifest,
    {
        &self.manifest
    }

    /// The configuration.
    pub fn config(&self) -> (config: &ResponseCacheConfig)
        ensures
            config@ == self@.config,
    {
        &self.config
    }

    /// The TTL of a tool's results, in milliseconds.
    pub fn ttl_for(&self, tool_name: &str) -> (ttl_ms: u64)
        ensures
            ttl_ms == tool_ttl(self@.config, tool_name@),
    {
        let ghost rules = self@.config.per_tool;
        let mut i: usize = 0;
        assert(rules.skip(0) =~= rules);
        while i < self.config.per_tool.len()
            invariant
                i <= self.config.per_tool@.len(),
                rules == self.config@.per_tool,
                first_ttl(rules, self.config.default_ttl_ms, tool_name@) == first_ttl(
                    rules.skip(i as int),
                    self.config.default_ttl_ms,
                    tool_name@,
                ),
            decreases self.config.per_tool@.len() - i,
        {
            let rule = &self.config.per_tool[i];
            assert(rules[i as int] == rule@);
            let mut j: usize = 0;
            while j < rule.tools.len()
                invariant
                    j <= rule.tools@.len(),
                    i < rules.len(),
                    rules[i as int] == rule@,
                    first_ttl(rules, self.config.default_ttl_ms, tool_name@) == first_ttl(
                        rules.skip(i as int),
                        self.config.default_ttl_ms,
                        tool_name@,
                    ),
                    rules == self@.config.per_tool,
                    forall|k: int|
                        0 <= k < j ==> !#[trigger] glob_matches(rule@.tools[k], tool_name@),
                decreases rule.tools@.len() - j,
            {
                assert(rule@.tools[j as int] == rule.tools@[j as int]@);
                if glob_match(rule.tools[j].as_str(), tool_name) {
                    assert(rule_matches(rule@, tool_name@));
                    return rule.ttl_ms;
                }
                j += 1;
            }
            assert(!rule_matches(rule@, tool_name@));
            assert(rules.skip(i as int).drop_first() =~= rules.skip(i + 1));
            i += 1;
        }
        self.config.default_ttl_ms
    }

    /// The part of the caller's identity that the key holds.
    pub fn identity_key(&self, ctx: &PluginContext) -> (identity: Option<String>)
        ensures
            match identity {
                Some(id) => scoped_identity(self@.config, ctx@) == Some(id@),
                None => scoped_identity(self@.config, ctx@) is None,
            },
    {
        if self.config.cache_scope == "per_identity".to_owned() {
            match &ctx.identity.subject_id {
                Some(id) => Some(id.clone()),
                None => None,
            }
        } else {
            None
        }
    }

    /// The key of an entry than which no other was stored earlier.
    fn oldest_key(&self) -> (key: Option<u64>)
        ensures
            match key {
                Some(k) => is_oldest(self@.entries, k) && self@.entries.len() > 0,
                None => self@.entries.len() == 0,
            },
    {
        let items = stamps(&self.cache);
        let mut oldest: Option<(u64, u128)> = None;
        let mut i: usize = 0;
        while i < items.len()
            invariant
                i <= items@.len(),
                lists_stamps(items@, held(self.cache)),
                match oldest {
                    Some(o) => held(self.cache).dom().contains(o.0) && held(
                        self.cache,
                    )[o.0].stored_at == o.1 && forall|j: int|
                        0 <= j < i ==> o.1 <= #[trigger] items@[j].1,
                    None => i == 0,
                },
            decreases items@.len() - i,
        {
            let older = match oldest {
                Some(o) => items[i].1 < o.1,
                None => true,
            };
            if older {
                assert(held(self.cache).dom().contains(items@[i as int].0));
                oldest = Some(items[i]);
            }
            i += 1;
        }
        proof {
            let entries = held(self.cache);
            let keys = items@.map_values(|item: (u64, u128)| item.0);
            assert forall|k: u64| #[trigger] entries.dom().contains(k) implies keys.to_set().contains(
                k,
            ) && (oldest matches Some(o) ==> o.1 <= entries[k].stored_at) by {
                let j = choose|j: int| 0 <= j < items@.len() && #[trigger] items@[j].0 == k;
                assert(items@[j].1 == entries[k].stored_at);
                assert(keys[j] == k);
            }
            vstd::seq_lib::seq_to_set_is_finite(keys);
            vstd::set_lib::lemma_len_subset(entries.dom(), keys.to_set());
            if oldest is None {
                assert(entries.dom() =~= Set::empty());
            }
        }
        match oldest {
            Some(o) => Some(o.0),
            None => None,
        }
    }

    /// Makes room where the cache is full: expired entries go first; where that is not enough,
    /// the oldest one goes.
    pub fn evict_if_full(&mut self, now: u128)
        ensures
            evict_step(old(self)@, final(self)@, now),
            old(self)@.well_formed() ==> final(self)@.well_formed(),
    {
        let full = self.entry_count as usize;
        if full >= self.config.max_entries {
            // Evict expired entries first
            retain_live(&mut self.cache, now);
            let new_count = count(&self.cache);
            self.entry_count = new_count as u64;

            // If still full, evict oldest
            if new_count >= self.config.max_entries {
                if let Some(key) = self.oldest_key() {
                    discard(&mut self.cache, key);
                    self.entry_count = self.entry_count.wrapping_sub(1);
                }
            }
        }
        proof {
            if old(self)@.well_formed() {
                law_evict_well_formed(old(self)@, self@, now);
            }
        }
    }

    /// Looks a call up under its key, and drops the entry there where it has expired.
    pub fn serve(&mut self, key: u64, call: &Call, now: u128) -> (served: (
        GateDecision,
        CacheLookup,
    ))
        ensures
            (final(self)@, served.0@, served.1) == lookup_step(old(self)@, key, call@, now),
            old(self)@.well_formed() ==> final(self)@.well_formed(),
    {
        match lookup(&self.cache, key) {
            Some(entry) => {
                if entry.is_expired(now) {
                    discard(&mut self.cache, key);
                    self.entry_count = self.entry_count.wrapping_sub(1);
                } else if entry.call.is(call) {
                    return (GateDecision::hit(entry.result), CacheLookup::Hit);
                }
            },
            None => {},
        }
        (GateDecision::allow(), CacheLookup::Miss)
    }

    /// Writes a result under a key, after making room where the cache is full, and says whether
    /// it did: a cache whose limit is zero has room for none.
    pub fn remember(
        &mut self,
        key: u64,
        call: Call,
        result: &JsonValue,
        ttl_ms: u64,
        now: u128,
    ) -> (written: bool)
        ensures
            written == (old(self)@.config.max_entries > 0),
            store_step(
                old(self)@,
                final(self)@,
                key,
                Entry { call: call@, result: result@, stored_at: now, ttl_ms },
            ),
            old(self)@.well_formed() ==> final(self)@.well_formed(),
    {
        if self.config.max_entries == 0 {
            return false;
        }
        self.evict_if_full(now);
        let ghost middle = self@;
        let entry = CacheEntry { call, result: result.clone(), stored_at: now, ttl_ms };
        store(&mut self.cache, key, entry);
        self.entry_count = self.entry_count.wrapping_add(1);
        proof {
            let entry = Entry { call: call@, result: result@, stored_at: now, ttl_ms };
            assert(evict_step(old(self)@, middle, entry.stored_at));
            assert(self@ =~= State {
                entries: middle.entries.insert(key, entry),
                entry_count: middle.entry_count.wrapping_add(1),
                ..middle
            });
            assert(store_step(old(self)@, self@, key, entry));
            if old(self)@.well_formed() {
                law_store_well_formed(old(self)@, self@, key, entry);
            }
        }
        true
    }

    /// Evaluates a call before dispatch, at a given reading of the cache's clock.
    pub fn evaluate_pre_at(
        &mut self,
        ctx: &PluginContext,
        arguments: &JsonValue,
        meta: Option<&JsonValue>,
        now: u128,
    ) -> (evaluated: (GateDecision, CacheLookup))
        ensures
            (final(self)@, evaluated.0@, evaluated.1) == pre_step(
                old(self)@,
                ctx@,
                arguments@,
                optional_view(meta),
                now,
            ),
            old(self)@.well_formed() ==> final(self)@.well_formed(),
    {
        // Check for no_cache flag in _meta
        if let Some(meta) = meta {
            if has_flag(meta, "no_cache") {
                return (GateDecision::allow(), CacheLookup::OptedOut);
            }
        }
        if self.ttl_for(ctx.tool_name.as_str()) == 0 {
            return (GateDecision::allow(), CacheLookup::Disabled);
        }
        let (key, call) = self.key_for(ctx, arguments);
        self.serve(key, &call, now)
    }

    /// Evaluates a call before dispatch, and says what the lookup came to.
    pub fn evaluate_pre_inner(
        &mut self,
        ctx: &PluginContext,
        arguments: &JsonValue,
        meta: Option<&JsonValue>,
    ) -> (evaluated: (GateDecision, CacheLookup))
        ensures
            exists|now: u128|
                {
                    &&& is_reading(old(self)@.started, now)
                    &&& (final(self)@, evaluated.0@, evaluated.1) == #[trigger] pre_step(
                        old(self)@,
                        ctx@,
                        arguments@,
                        optional_view(meta),
                        now,
                    )
                },
            old(self)@.well_formed() ==> final(self)@.well_formed(),
    {
        let clock = nanos_since;
        let now = clock(&self.started);
        assert(is_reading(self.started, now));
        self.evaluate_pre_at(ctx, arguments, meta, now)
    }

    /// Evaluates a call before dispatch, and times it.
    pub fn evaluate_pre_observed(
        &mut self,
        ctx: &PluginContext,
        arguments: &JsonValue,
        meta: Option<&JsonValue>,
    ) -> (observed: PreEvaluation)
        ensures
            exists|now: u128|
                {
                    &&& is_reading(old(self)@.started, now)
                    &&& (final(self)@, observed.decision@, observed.lookup) == #[trigger] pre_step(
                        old(self)@,
                        ctx@,
                        arguments@,
                        optional_view(meta),
                        now,
                    )
                },
            exists|started: Instant, nanos: u128|
                is_start(started) && #[trigger] is_reading(started, nanos) && observed.elapsed_ms
                    == nanos / 1_000_000,
            observed.elapsed_ms <= u128::MAX / NANOS_PER_MILLI,
            old(self)@.well_formed() ==> final(self)@.well_formed(),
    {
        let start = start_clock;
        let started = start();
        assert(is_start(started));
        let (decision, lookup) = self.evaluate_pre_inner(ctx, arguments, meta);
        let clock = nanos_since;
        let nanos = clock(&started);
        assert(is_reading(started, nanos));
        let elapsed_ms = nanos / NANOS_PER_MILLI;
        PreEvaluation { decision, lookup, elapsed_ms }
    }

    /// Evaluates a call before dispatch: a cached result that has not expired is the answer, and
    /// the backend is not asked.
    pub fn evaluate_pre(
        &mut self,
        ctx: &PluginContext,
        arguments: &JsonValue,
        meta: Option<&JsonValue>,
        _config: &JsonValue,
    ) -> (decision: GateDecision)
        ensures
            exists|now: u128|
                {
                    let step = #[trigger] pre_step(
                        old(self)@,
                        ctx@,
                        arguments@,
                        optional_view(meta),
                        now,
                    );
                    is_reading(old(self)@.started, now) && final(self)@ == step.0 && decision@
                        == step.1
                },
            old(self)@.well_formed() ==> final(self)@.well_formed(),
    {
        let observed = self.evaluate_pre_observed(ctx, arguments, meta);
        observed.decision
    }

    /// Evaluates a call after dispatch, at a given reading of the cache's clock, and says under
    /// which TTL the result was written, if it was.
    pub fn evaluate_post_at(
        &mut self,
        ctx: &PluginContext,
        arguments: &JsonValue,
        result: &JsonValue,
        now: u128,
    ) -> (evaluated: (GateDecision, Option<u64>))
        ensures
            evaluated.0@ == plain_allow(),
            evaluated.1 == recorded_ttl(old(self)@.config, ctx@, result@),
            post_step(old(self)@, final(self)@, ctx@, arguments@, result@, now),
            old(self)@.well_formed() ==> final(self)@.well_formed(),
    {
        // Don't cache errors
        if has_flag(result, "isError") {
            return (GateDecision::allow(), None);
        }
        let ttl_ms = self.ttl_for(ctx.tool_name.as_str());
        if ttl_ms == 0 {
            return (GateDecision::allow(), None);
        }
        let (key, call) = self.key_for(ctx, arguments);
        if self.remember(key, call, result, ttl_ms, now) {
            (GateDecision::allow(), Some(ttl_ms))
        } else {
            (GateDecision::allow(), None)
        }
    }

    /// Evaluates a call after dispatch, and says under which TTL the result was written, if it
    /// was.
    pub fn evaluate_post_inner(
        &mut self,
        ctx: &PluginContext,
        arguments: &JsonValue,
        result: &JsonValue,
    ) -> (evaluated: (GateDecision, Option<u64>))
        ensures
            evaluated.0@ == plain_allow(),
            evaluated.1 == recorded_ttl(old(self)@.config, ctx@, result@),
            exists|now: u128|
                is_reading(old(self)@.started, now) && #[trigger] post_step(
                    old(self)@,
                    final(self)@,
                    ctx@,
                    arguments@,
                    result@,
                    now,
                ),
            old(self)@.well_formed() ==> final(self)@.well_formed(),
    {
        let clock = nanos_since;
        let now = clock(&self.started);
        assert(is_reading(self.started, now));
        self.evaluate_post_at(ctx, arguments, result, now)
    }

    /// Evaluates a call after dispatch: a result that is no error is cached.
    pub fn evaluate_post(
        &mut self,
        ctx: &PluginContext,
        arguments: &JsonValue,
        result: &JsonValue,
        _execution_duration_ms: u64,
        _config: &JsonValue,
    ) -> (decision: GateDecision)
        ensures
            decision@ == plain_allow(),
            exists|now: u128|
                is_reading(old(self)@.started, now) && #[trigger] post_step(
                    old(self)@,
                    final(self)@,
                    ctx@,
                    arguments@,
                    result@,
                    now,
                ),
            old(self)@.well_formed() ==> final(self)@.well_formed(),
    {
        let evaluated = self.evaluate_post_inner(ctx, arguments, result);
        evaluated.0
    }

    /// The key of a call, and what identifies it.
    fn key_for(&self, ctx: &PluginContext, arguments: &JsonValue) -> (keyed: (u64, Call))
        ensures
            keyed.0 == call_key(self@.config, ctx@, arguments@),
            keyed.1@ == call_id(self@.config, ctx@, arguments@),
    {
        let identity = self.identity_key(ctx);
        let identity_key = match &identity {
            Some(id) => Some(id.as_str()),
            None => None,
        };
        let key = cache_key(
            ctx.surface.as_str(),
            ctx.tool_name.as_str(),
            arguments,
            identity_key,
        );
        let call = Call {
            surface: ctx.surface.clone(),
            tool_name: ctx.tool_name.clone(),
            arguments: canonical_json(arguments),
            identity,
        };
        (key, call)
    }
}

/// Whether the value is an object whose member of that name is `true`.
fn has_flag(value: &JsonValue, name: &str) -> (set: bool)
    ensures
        set == flagged(value@, name@),
{
    match value.get(name) {
        Some(member) => match member.as_bool() {
            Some(b) => b,
            None => false,
        },
        None => false,
    }
}

} // verus!
