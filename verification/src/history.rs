//! What holds of a cache over every sequence of calls since it was made.
use crate::config::Config;
use crate::json::{spellable, Json};
use crate::key::law_key_tells_calls_apart;
use crate::laws::{
    call_bytes, law_bounded, law_call_is_told_by_its_id, law_reads_keep_the_rest,
    law_settings_are_fixed, law_writes_keep_the_rest,
};
use crate::model::{
    cacheable, call_id, call_key, is_oldest, opts_out, post_step, pre_step, scoped_identity,
    tool_ttl, CacheLookup, State,
};
use crate::plugin::is_fresh;
use crate::protocol::{cache_hit, Request};
use crate::store::{live_entries, Entry, NANOS_PER_MILLI};
use vstd::prelude::*;

verus! {

/// An evaluation of a call, before dispatch or after it, at a reading of the cache's clock.
pub enum Event {
    Pre { request: Request, arguments: Json, meta: Option<Json>, now: u128 },
    Post { request: Request, arguments: Json, result: Json, now: u128 },
}

/// The evaluation takes the cache from one state to the other.
pub open spec fn event_step(before: State, after: State, event: Event) -> bool {
    match event {
        Event::Pre { request, arguments, meta, now } => after == pre_step(
            before,
            request,
            arguments,
            meta,
            now,
        ).0,
        Event::Post { request, arguments, result, now } => post_step(
            before,
            after,
            request,
            arguments,
            result,
            now,
        ),
    }
}

/// The arguments of the call that the event evaluates.
pub open spec fn arguments_of(event: Event) -> Json {
    match event {
        Event::Pre { arguments, .. } => arguments,
        Event::Post { arguments, .. } => arguments,
    }
}

/// The states of a cache that was made with that configuration and has since evaluated the
/// events: the first before all of them, and one after each. Arguments are values that JSON text
/// can spell, as every value is.
pub open spec fn is_history(config: Config, states: Seq<State>, events: Seq<Event>) -> bool {
    &&& states.len() == events.len() + 1
    &&& is_fresh(states[0], config)
    &&& forall|i: int|
        #![trigger events[i]]
        0 <= i < events.len() ==> event_step(states[i], states[i + 1], events[i]) && spellable(
            arguments_of(events[i]),
        )
}

/// The calls are the same: surface, tool, arguments, whatever the order of their members, and the
/// part of the identity that the scope takes in.
pub open spec fn same_call(
    config: Config,
    one: Request,
    arguments1: Json,
    other: Request,
    arguments2: Json,
) -> bool {
    &&& one.surface == other.surface
    &&& one.tool_name == other.tool_name
    &&& arguments1 == arguments2
    &&& scoped_identity(config, one) == scoped_identity(config, other)
}

/// The event records a result for the call.
pub open spec fn records(config: Config, event: Event, request: Request, arguments: Json) -> bool {
    match event {
        Event::Pre { .. } => false,
        Event::Post { request: writer, arguments: given, result, .. } => cacheable(
            config,
            writer,
            result,
        ) && same_call(config, writer, given, request, arguments),
    }
}

/// The event is the last of all that record a result for the call.
pub open spec fn is_latest_record(
    config: Config,
    events: Seq<Event>,
    request: Request,
    arguments: Json,
    i: int,
) -> bool {
    &&& 0 <= i < events.len()
    &&& records(config, events[i], request, arguments)
    &&& forall|j: int|
        i < j < events.len() ==> !records(config, #[trigger] events[j], request, arguments)
}

/// The event writes an entry under the key.
pub open spec fn writes(config: Config, event: Event, key: u64) -> bool {
    match event {
        Event::Pre { .. } => false,
        Event::Post { request, arguments, result, .. } => cacheable(config, request, result)
            && call_key(config, request, arguments) == key,
    }
}

/// The event is the last that writes under the key.
spec fn is_latest_write(config: Config, events: Seq<Event>, key: u64, i: int) -> bool {
    &&& 0 <= i < events.len()
    &&& writes(config, events[i], key)
    &&& forall|j: int| i < j < events.len() ==> !writes(config, #[trigger] events[j], key)
}

/// The entry that the event writes.
spec fn written(config: Config, event: Event) -> Entry {
    Entry {
        call: call_id(config, event->Post_request, event->Post_arguments),
        result: event->Post_result,
        stored_at: event->Post_now,
        ttl_ms: tool_ttl(config, event->Post_request.tool_name),
    }
}

/// Every entry is what the last write under its key wrote.
spec fn holds_latest_writes(config: Config, events: Seq<Event>, state: State) -> bool {
    forall|key: u64| #[trigger]
        state.entries.dom().contains(key) ==> exists|i: int| #[trigger]
            is_latest_write(config, events, key, i) && state.entries[key] == written(
                config,
                events[i],
            )
}

/// The reading of the clock at which the event was evaluated.
pub open spec fn time_of(event: Event) -> u128 {
    match event {
        Event::Pre { now, .. } => now,
        Event::Post { now, .. } => now,
    }
}

/// What one more event leaves of the entries.
proof fn lemma_next_event(
    config: Config,
    events: Seq<Event>,
    before: State,
    after: State,
    event: Event,
)
    requires
        before.config == config,
        before.well_formed(),
        holds_latest_writes(config, events, before),
        event_step(before, after, event),
    ensures
        holds_latest_writes(config, events.push(event), after),
{
    let more = events.push(event);
    let n = events.len() as int;
    assert(more[n] == event);
    assert forall|key: u64| #[trigger] after.entries.dom().contains(key) implies exists|i: int|
        #[trigger]
        is_latest_write(config, more, key, i) && after.entries[key] == written(config, more[i]) by {
        if writes(config, event, key) && config.max_entries > 0 {
            assert(after.entries[key] == written(config, event));
            assert(is_latest_write(config, more, key, n));
        } else {
            if config.max_entries == 0 {
                assert(before.entries.len() == 0);
                assert(before.entries.dom() =~= Set::empty());
            }
            assert(before.entries.dom().contains(key) && after.entries[key] == before.entries[key]);
            let i = choose|i: int| #[trigger]
                is_latest_write(config, events, key, i) && before.entries[key] == written(
                    config,
                    events[i],
                );
            assert(more[i] == events[i]);
            assert forall|j: int| i < j < more.len() implies !writes(
                config,
                #[trigger] more[j],
                key,
            ) by {
                if j < n {
                    assert(more[j] == events[j]);
                }
            }
            assert(is_latest_write(config, more, key, i));
        }
    }
}

/// A history without its last event is one, and the last event leads on from it.
proof fn lemma_earlier(config: Config, states: Seq<State>, events: Seq<Event>)
    requires
        is_history(config, states, events),
        events.len() > 0,
    ensures
        is_history(config, states.drop_last(), events.drop_last()),
        event_step(states.drop_last().last(), states.last(), events.last()),
{
    let (earlier, states1) = (events.drop_last(), states.drop_last());
    assert forall|i: int|
        #![trigger earlier[i]]
        0 <= i < earlier.len() implies event_step(states1[i], states1[i + 1], earlier[i])
        && spellable(arguments_of(earlier[i])) by {
        assert(earlier[i] == events[i]);
    }
    assert(events[events.len() - 1] == events.last());
}

/// In every state that a cache can reach, it is well formed, it has its settings and the start of
/// its clock, and it holds what was last written.
proof fn lemma_reached(config: Config, states: Seq<State>, events: Seq<Event>)
    requires
        is_history(config, states, events),
    ensures
        states.last().well_formed(),
        states.last().config == config,
        states.last().manifest == states[0].manifest,
        states.last().started == states[0].started,
        holds_latest_writes(config, events, states.last()),
    decreases events.len(),
{
    if events.len() > 0 {
        let event = events.last();
        let (earlier, states1) = (events.drop_last(), states.drop_last());
        lemma_earlier(config, states, events);
        lemma_reached(config, states1, earlier);
        let (before, after) = (states1.last(), states.last());
        match event {
            Event::Pre { request, arguments, meta, now } => {
                law_bounded(before, after, request, arguments, Json::Null, meta, now);
                law_settings_are_fixed(before, after, request, arguments, Json::Null, meta, now);
            },
            Event::Post { request, arguments, result, now } => {
                law_bounded(before, after, request, arguments, result, None, now);
                law_settings_are_fixed(before, after, request, arguments, result, None, now);
            },
        }
        lemma_next_event(config, earlier, before, after, event);
        assert(earlier.push(event) =~= events);
    }
}

/// Whatever calls a cache has evaluated, it holds no more entries than its limit, and its
/// manifest, its configuration and the start of its clock are those that it was made with.
pub proof fn law_always_bounded(config: Config, states: Seq<State>, events: Seq<Event>)
    requires
        is_history(config, states, events),
    ensures
        states.last().entries.len() <= config.max_entries,
        states.last().well_formed(),
        states.last().config == config,
        states.last().manifest == states[0].manifest,
        states.last().started == states[0].started,
{
    lemma_reached(config, states, events);
}

/// Whatever calls a cache has evaluated, what it serves for a call is the result of the latest
/// evaluation after dispatch that recorded one for the same call, less than the tool's TTL ago.
pub proof fn law_hit_serves_the_latest_record(
    config: Config,
    states: Seq<State>,
    events: Seq<Event>,
    request: Request,
    arguments: Json,
    meta: Option<Json>,
    now: u128,
)
    requires
        is_history(config, states, events),
        spellable(arguments),
        pre_step(states.last(), request, arguments, meta, now).1.modified_result is Some,
    ensures
        exists|i: int|
            {
                &&& #[trigger] is_latest_record(config, events, request, arguments, i)
                &&& pre_step(states.last(), request, arguments, meta, now).1.modified_result
                    == Some(events[i]->Post_result)
                &&& now - events[i]->Post_now < tool_ttl(config, request.tool_name)
                    * NANOS_PER_MILLI
            },
{
    lemma_reached(config, states, events);
    let key = call_key(config, request, arguments);
    let entry = states.last().entries[key];
    assert(states.last().entries.dom().contains(key));
    let i = choose|i: int| #[trigger]
        is_latest_write(config, events, key, i) && entry == written(config, events[i]);
    law_call_is_told_by_its_id(
        config,
        events[i]->Post_request,
        request,
        events[i]->Post_arguments,
        arguments,
    );
    assert(records(config, events[i], request, arguments));
    assert forall|j: int| i < j < events.len() implies !records(
        config,
        #[trigger] events[j],
        request,
        arguments,
    ) by {
        assert(!writes(config, events[j], key));
    }
    assert(is_latest_record(config, events, request, arguments, i));
}

/// Under the scope `per_identity` a caller is never served what was recorded for others alone:
/// where every evaluation after dispatch was for another subject, nothing is served. A caller
/// without a subject counts as other than every subject.
pub proof fn law_subjects_are_never_served_each_other(
    config: Config,
    states: Seq<State>,
    events: Seq<Event>,
    request: Request,
    arguments: Json,
    meta: Option<Json>,
    now: u128,
)
    requires
        config.cache_scope == "per_identity"@,
        is_history(config, states, events),
        spellable(arguments),
        forall|i: int|
            0 <= i < events.len() ==> ((#[trigger] events[i]) matches Event::Post {
                request: writer,
                ..
            } ==> writer.subject_id != request.subject_id),
    ensures
        pre_step(states.last(), request, arguments, meta, now).1.modified_result is None,
{
    if pre_step(states.last(), request, arguments, meta, now).1.modified_result is Some {
        law_hit_serves_the_latest_record(config, states, events, request, arguments, meta, now);
        let i = choose|i: int| #[trigger] is_latest_record(config, events, request, arguments, i);
        assert(records(config, events[i], request, arguments));
    }
}

/// The event, evaluated in that state, makes no room at the cost of the entry under the key: it
/// writes nothing, or fewer entries than the limit are live, or the entry is not the oldest.
pub open spec fn spares(config: Config, state: State, event: Event, key: u64) -> bool {
    match event {
        Event::Pre { .. } => true,
        Event::Post { request, result, now, .. } => {
            let live = live_entries(state.entries, now);
            cacheable(config, request, result) ==> live.len() < config.max_entries || !is_oldest(
                live,
                key,
            )
        },
    }
}

/// What was last written under a key is still there, as long as it is fresh and was not evicted.
proof fn lemma_kept(
    config: Config,
    states: Seq<State>,
    events: Seq<Event>,
    key: u64,
    i: int,
    now: u128,
)
    requires
        is_history(config, states, events),
        is_latest_write(config, events, key, i),
        config.max_entries > 0,
        forall|j: int|
            i < j < events.len() ==> time_of(#[trigger] events[j]) <= now && spares(
                config,
                states[j],
                events[j],
                key,
            ),
        !written(config, events[i]).expired(now),
    ensures
        states.last().entries.dom().contains(key),
        states.last().entries[key] == written(config, events[i]),
    decreases events.len(),
{
    let event = events.last();
    let (earlier, states1) = (events.drop_last(), states.drop_last());
    let (before, after) = (states1.last(), states.last());
    lemma_earlier(config, states, events);
    lemma_reached(config, states1, earlier);
    assert(events[events.len() - 1] == event);
    if i < events.len() - 1 {
        assert(earlier[i] == events[i]);
        assert forall|j: int| i < j < earlier.len() implies !writes(
            config,
            #[trigger] earlier[j],
            key,
        ) && time_of(earlier[j]) <= now && spares(config, states1[j], earlier[j], key) by {
            assert(earlier[j] == events[j]);
            assert(states1[j] == states[j]);
        }
        lemma_kept(config, states1, earlier, key, i, now);
        assert(!writes(config, event, key));
        assert(time_of(event) <= now);
        assert(before == states[events.len() - 1]);
        match event {
            Event::Pre { request, arguments, meta, now: at } => {
                law_reads_keep_the_rest(before, request, arguments, meta, at, key);
            },
            Event::Post { request, arguments, result, now: at } => {
                if cacheable(config, request, result) {
                    law_writes_keep_the_rest(before, after, request, arguments, result, at, key);
                }
            },
        }
    }
}

/// Whatever calls a cache has evaluated, a result recorded for a call is served for as long as the
/// tool's TTL lasts: provided that nothing was written since under the same key, that no write
/// since made room at its cost, and that the clock did not run backwards since.
pub proof fn law_record_is_served(
    config: Config,
    states: Seq<State>,
    events: Seq<Event>,
    request: Request,
    arguments: Json,
    meta: Option<Json>,
    now: u128,
    i: int,
)
    requires
        is_history(config, states, events),
        0 <= i < events.len(),
        records(config, events[i], request, arguments),
        config.max_entries > 0,
        forall|j: int|
            i < j < events.len() ==> {
                &&& time_of(#[trigger] events[j]) <= now
                &&& !writes(config, events[j], call_key(config, request, arguments))
                &&& spares(config, states[j], events[j], call_key(config, request, arguments))
            },
        now - events[i]->Post_now < tool_ttl(config, request.tool_name) * NANOS_PER_MILLI,
        !opts_out(meta),
    ensures
        pre_step(states.last(), request, arguments, meta, now) == (
            states.last(),
            cache_hit(events[i]->Post_result),
            CacheLookup::Hit,
        ),
{
    let key = call_key(config, request, arguments);
    assert(writes(config, events[i], key));
    assert(is_latest_write(config, events, key, i));
    lemma_reached(config, states, events);
    lemma_kept(config, states, events, key, i, now);
}

/// A write under the key of a call is a record for that call, where calls of the same key hand the
/// same bytes to the hasher.
pub proof fn law_distinct_hashes_leave_keys_unshared(
    config: Config,
    event: Event,
    request: Request,
    arguments: Json,
)
    requires
        spellable(arguments),
        spellable(arguments_of(event)),
        writes(config, event, call_key(config, request, arguments)),
        call_bytes(config, event->Post_request, event->Post_arguments) == call_bytes(
            config,
            request,
            arguments,
        ),
    ensures
        records(config, event, request, arguments),
{
    let writer = event->Post_request;
    let given = event->Post_arguments;
    law_key_tells_calls_apart(
        writer.surface,
        writer.tool_name,
        given,
        scoped_identity(config, writer),
        request.surface,
        request.tool_name,
        arguments,
        scoped_identity(config, request),
    );
    law_call_is_told_by_its_id(config, writer, request, given, arguments);
}

} // verus!
