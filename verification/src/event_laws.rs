//! What a store shows after any run of calls.

use crate::error::ToolboxError;
use crate::event::{
    fields_data, latest_says, law_resuming_misses_nothing,
    law_snapshot_is_required_only_after_a_loss, lemma_latest_says, retained, shown_in_order, shows,
    told, updated, without, AppEvent, DataHub, Delivery, EventFields, EventPayload, EventValue, StateStore,
    StoreState, ERROR_RETENTION,
};
use crate::ident::Uuid;
use crate::model::{
    AppSnapshot, EventResume, EventSubscription, SessionSnapshot, SessionStatus, SourceSnapshot,
    ToolboxProject,
};
use std::sync::Arc;
use vstd::prelude::*;

verus! {

/// A call that a store was given.
pub enum StoreCall<V> {
    SetProject(Arc<ToolboxProject<V>>),
    SetSource(Arc<SourceSnapshot>, Seq<char>),
    UpdateSourceSilent(Arc<SourceSnapshot>),
    SetSession(Arc<SessionSnapshot>, Seq<char>),
    UpdateLatestValues(Seq<(Uuid, V)>),
    PushError(Arc<ToolboxError>),
    Emit(Seq<char>, EventPayload<V>),
    Subscribe(u32),
    DropSubscribers(Seq<u32>),
    TakePending,
}

/// What a call does to the state of a store.
pub open spec fn called<V>(before: StoreState<V>, call: StoreCall<V>, after: StoreState<V>) -> bool {
    match call {
        StoreCall::SetProject(project) => told(
            before.with_project(project),
            "project.changed"@,
            EventPayload::Project { project_id: project.id, name: project.name },
            after,
        ),
        StoreCall::SetSource(source, event_type) => told(
            before.with_source(source),
            event_type,
            EventPayload::Source(source),
            after,
        ),
        StoreCall::UpdateSourceSilent(source) => after == before.with_source(source),
        StoreCall::SetSession(session, event_type) => told(
            before.with_session(session),
            event_type,
            EventPayload::Session(session),
            after,
        ),
        StoreCall::UpdateLatestValues(values) => after == (StoreState {
            latest: updated(before.latest, values),
            ..before
        }),
        StoreCall::PushError(noted) => told(
            before.with_error(noted),
            "error.raised"@,
            EventPayload::Error(noted),
            after,
        ),
        StoreCall::Emit(event_type, payload) => told(before, event_type, payload, after),
        StoreCall::Subscribe(channel) => after == (StoreState {
            subscribers: before.subscribers.push(channel),
            ..before
        }),
        StoreCall::DropSubscribers(failed) => after == (StoreState {
            subscribers: without(before.subscribers, failed),
            ..before
        }),
        StoreCall::TakePending => after == (StoreState {
            pending: Seq::<Delivery<V>>::empty(),
            ..before
        }),
    }
}

/// The states between calls that were made one after the other.
pub open spec fn called_in_turn<V>(states: Seq<StoreState<V>>, calls: Seq<StoreCall<V>>) -> bool {
    &&& states.len() == calls.len() + 1
    &&& forall|i: int|
        #![trigger calls[i]]
        0 <= i < calls.len() ==> called(states[i], calls[i], states[i + 1])
}

/// How many of the calls are told of.
pub open spec fn told_calls<V>(calls: Seq<StoreCall<V>>) -> nat
    decreases calls.len(),
{
    if calls.len() == 0 {
        0
    } else {
        told_calls(calls.drop_last()) + match calls.last() {
            StoreCall::SetProject(_) | StoreCall::SetSource(..) | StoreCall::SetSession(..)
            | StoreCall::PushError(_) | StoreCall::Emit(..) => 1nat,
            _ => 0nat,
        }
    }
}

/// The project that was set last, or the first one.
pub open spec fn last_project<V>(
    calls: Seq<StoreCall<V>>,
    first: Arc<ToolboxProject<V>>,
) -> Arc<ToolboxProject<V>>
    decreases calls.len(),
{
    if calls.len() == 0 {
        first
    } else {
        match calls.last() {
            StoreCall::SetProject(project) => project,
            _ => last_project(calls.drop_last(), first),
        }
    }
}

/// The session that was set last, or the first one.
pub open spec fn last_session<V>(
    calls: Seq<StoreCall<V>>,
    first: Arc<SessionSnapshot>,
) -> Arc<SessionSnapshot>
    decreases calls.len(),
{
    if calls.len() == 0 {
        first
    } else {
        match calls.last() {
            StoreCall::SetSession(session, _) => session,
            _ => last_session(calls.drop_last(), first),
        }
    }
}

/// Every source that was ever stored, as it was stored last.
pub open spec fn stored_sources<V>(calls: Seq<StoreCall<V>>) -> Map<Uuid, Arc<SourceSnapshot>>
    decreases calls.len(),
{
    if calls.len() == 0 {
        Map::empty()
    } else {
        let before = stored_sources(calls.drop_last());
        match calls.last() {
            StoreCall::SetSource(source, _) => before.insert(source.source_id, source),
            StoreCall::UpdateSourceSilent(source) => before.insert(source.source_id, source),
            _ => before,
        }
    }
}

/// Every value that a channel ever had, as it was last.
pub open spec fn last_values<V>(calls: Seq<StoreCall<V>>) -> Map<Uuid, V>
    decreases calls.len(),
{
    if calls.len() == 0 {
        Map::empty()
    } else {
        let before = last_values(calls.drop_last());
        match calls.last() {
            StoreCall::UpdateLatestValues(values) => updated(before, values),
            _ => before,
        }
    }
}

/// All errors that were ever noted, in order.
pub open spec fn noted_errors<V>(calls: Seq<StoreCall<V>>) -> Seq<Arc<ToolboxError>>
    decreases calls.len(),
{
    if calls.len() == 0 {
        Seq::empty()
    } else {
        let before = noted_errors(calls.drop_last());
        match calls.last() {
            StoreCall::PushError(noted) => before.push(noted),
            _ => before,
        }
    }
}

/// The last elements of a sequence, a number of them at most.
pub open spec fn latest<T>(items: Seq<T>, limit: nat) -> Seq<T> {
    if items.len() <= limit {
        items
    } else {
        items.skip(items.len() - limit)
    }
}

/// The state of a store after any run of calls: the cursor is the number of calls that
/// were told of, and everything else is what was set, stored or noted last.
pub proof fn law_the_state_is_what_was_set_last<V>(
    states: Seq<StoreState<V>>,
    calls: Seq<StoreCall<V>>,
    project: Arc<ToolboxProject<V>>,
)
    requires
        states.len() > 0,
        states[0].untouched(project),
        called_in_turn(states, calls),
        told_calls(calls) <= u64::MAX,
    ensures
        states.last().runtime_instance_id == states[0].runtime_instance_id,
        states.last().cursor == told_calls(calls),
        states.last().project == last_project(calls, project),
        states.last().session == last_session(calls, states[0].session),
        states.last().sources == stored_sources(calls),
        states.last().latest == last_values(calls),
        states.last().errors == latest(noted_errors(calls), ERROR_RETENTION as nat),
    decreases calls.len(),
{
    if calls.len() > 0 {
        let n = calls.len() - 1;
        let earlier = states.drop_last();
        let first = calls.drop_last();
        let call = calls[n];
        assert(called(states[n], call, states[n + 1]));
        assert forall|i: int|
            #![trigger first[i]]
            0 <= i < first.len() implies called(earlier[i], first[i], earlier[i + 1]) by {
            assert(first[i] == calls[i]);
        }
        law_the_state_is_what_was_set_last(earlier, first, project);
        assert(earlier.last() == states[n]);
        if let StoreCall::PushError(noted) = call {
            let limit = ERROR_RETENTION as nat;
            let old = noted_errors(first);
            assert(retained(latest(old, limit), noted, limit) =~= latest(
                old.push(noted),
                limit,
            ));
        }
    }
}

/// What a snapshot shows after any run of calls: the cursor is the number of calls that
/// were told of, and everything else is what was set, stored or noted last. Sources come
/// in the order of their identifiers, each once.
pub proof fn law_a_snapshot_shows_what_was_set_last<V>(
    states: Seq<StoreState<V>>,
    calls: Seq<StoreCall<V>>,
    project: Arc<ToolboxProject<V>>,
    snapshot: AppSnapshot<V>,
)
    requires
        states.len() > 0,
        states[0].untouched(project),
        called_in_turn(states, calls),
        told_calls(calls) <= u64::MAX,
        shows(snapshot, states.last()),
    ensures
        snapshot.runtime_instance_id == states[0].runtime_instance_id,
        snapshot.event_cursor == told_calls(calls),
        snapshot.project == last_project(calls, project),
        snapshot.session == last_session(calls, states[0].session),
        snapshot.latest_channel_values@ == last_values(calls),
        snapshot.recent_errors@ == latest(noted_errors(calls), ERROR_RETENTION as nat),
        forall|i: int, j: int|
            0 <= i < j < snapshot.sources@.len() ==> (
            #[trigger] snapshot.sources@[i]).source_id.value < (
            #[trigger] snapshot.sources@[j]).source_id.value,
        forall|i: int|
            0 <= i < snapshot.sources@.len() ==> {
                let shown = #[trigger] snapshot.sources@[i];
                &&& stored_sources(calls).dom().contains(shown.source_id)
                &&& stored_sources(calls)[shown.source_id] == shown
            },
        forall|id: Uuid| #[trigger]
            stored_sources(calls).dom().contains(id) ==> snapshot.sources@.contains(
                stored_sources(calls)[id],
            ),
{
    law_the_state_is_what_was_set_last(states, calls, project);
    lemma_sources_by_own_id(calls);
    let sources = stored_sources(calls);
    let order = choose|order: Seq<Uuid>| #[trigger]
        crate::event::shown_in_order(snapshot.sources@, sources, order);
    assert forall|i: int| 0 <= i < snapshot.sources@.len() implies {
        let shown = #[trigger] snapshot.sources@[i];
        &&& sources.dom().contains(shown.source_id)
        &&& sources[shown.source_id] == shown
        &&& shown.source_id == order[i]
    } by {
        assert(order.contains(order[i]));
        assert(sources.dom().contains(order[i]));
    }
    assert forall|id: Uuid| #[trigger] sources.dom().contains(id) implies snapshot.sources@.contains(
        sources[id],
    ) by {
        assert(order.contains(id));
        let i = choose|i: int| 0 <= i < order.len() && order[i] == id;
        assert(snapshot.sources@[i] == sources[id]);
    }
}

/// Sources are stored under their own identifiers.
proof fn lemma_sources_by_own_id<V>(calls: Seq<StoreCall<V>>)
    ensures
        forall|id: Uuid| #[trigger]
            stored_sources(calls).dom().contains(id) ==> stored_sources(calls)[id].source_id == id,
    decreases calls.len(),
{
    if calls.len() > 0 {
        lemma_sources_by_own_id(calls.drop_last());
    }
}

/// A channel has the value that came last for it, and the one that it had before where none
/// came.
pub proof fn law_the_last_value_counts<V: Copy>(
    store: &mut StateStore<V>,
    values: &[(Uuid, V)],
    id: Uuid,
)
    requires
        old(store).wf(),
        call_ensures(StateStore::<V>::update_latest_values, (store, values), ()),
    ensures
        (forall|i: int| 0 <= i < values@.len() ==> (#[trigger] values@[i]).0 != id) ==> {
            &&& final(store)@.latest.dom().contains(id) == old(store)@.latest.dom().contains(id)
            &&& final(store)@.latest[id] == old(store)@.latest[id]
        },
        forall|k: int|
            0 <= k < values@.len() && (#[trigger] values@[k]).0 == id && (forall|i: int|
                k < i < values@.len() ==> (#[trigger] values@[i]).0 != id) ==> {
                &&& final(store)@.latest.dom().contains(id)
                &&& final(store)@.latest[id] == values@[k].1
            },
        final(store)@.cursor == old(store)@.cursor,
        final(store)@.pending == old(store)@.pending,
{
    lemma_last_value(old(store)@.latest, values@, id);
}

proof fn lemma_last_value<V>(values: Map<Uuid, V>, changes: Seq<(Uuid, V)>, id: Uuid)
    ensures
        (forall|i: int| 0 <= i < changes.len() ==> (#[trigger] changes[i]).0 != id) ==> updated(
            values,
            changes,
        ).dom().contains(id) == values.dom().contains(id) && updated(values, changes)[id]
            == values[id],
        forall|k: int|
            0 <= k < changes.len() && (#[trigger] changes[k]).0 == id && (forall|i: int|
                k < i < changes.len() ==> (#[trigger] changes[i]).0 != id) ==> updated(
                values,
                changes,
            ).dom().contains(id) && updated(values, changes)[id] == changes[k].1,
    decreases changes.len(),
{
    if changes.len() > 0 {
        let head = changes.drop_last();
        lemma_last_value(values, head, id);
        let last = changes.len() - 1;
        assert(changes[last] == changes.last());
        assert forall|k: int|
            0 <= k < changes.len() && (#[trigger] changes[k]).0 == id && (forall|i: int|
                k < i < changes.len() ==> (#[trigger] changes[i]).0 != id) implies updated(
            values,
            changes,
        ).dom().contains(id) && updated(values, changes)[id] == changes[k].1 by {
            if k < last {
                assert(changes[last].0 != id);
                assert(head[k] == changes[k]);
                assert forall|i: int| k < i < head.len() implies (#[trigger] head[i]).0 != id by {
                    assert(head[i] == changes[i]);
                }
            }
        }
        if forall|i: int| 0 <= i < changes.len() ==> (#[trigger] changes[i]).0 != id {
            assert forall|i: int| 0 <= i < head.len() implies (#[trigger] head[i]).0 != id by {
                assert(head[i] == changes[i]);
            }
        }
    }
}

/// Subscribers that could not be reached are forgotten, all others stay, in order.
pub proof fn law_reachable_subscribers_stay<V: Copy>(
    store: &mut StateStore<V>,
    failed: &Vec<u32>,
    left: Seq<u32>,
    right: Seq<u32>,
)
    requires
        old(store).wf(),
        old(store)@.subscribers == left + right,
        call_ensures(StateStore::<V>::drop_subscribers, (store, failed), ()),
    ensures
        final(store)@.subscribers == without(left, failed@) + without(right, failed@),
        left.len() == 1 ==> without(left, failed@) == if failed@.contains(left[0]) {
            Seq::empty()
        } else {
            left
        },
        left.len() == 0 ==> without(left, failed@) == left,
        forall|id: u32| #[trigger]
            final(store)@.subscribers.contains(id) <==> old(store)@.subscribers.contains(id)
                && !failed@.contains(id),
{
    lemma_without(left, right, failed@);
    assert forall|id: u32| #[trigger]
        final(store)@.subscribers.contains(id) <==> old(store)@.subscribers.contains(id)
            && !failed@.contains(id) by {
        lemma_without_contains(left + right, failed@, id);
    }
    if left.len() == 1 {
        assert(left.drop_last() =~= Seq::<u32>::empty());
        assert(without(left.drop_last(), failed@) == Seq::<u32>::empty());
        assert(seq![left[0]] =~= left);
        assert(Seq::<u32>::empty().push(left[0]) =~= left);
    }
    if left.len() == 0 {
        assert(left =~= Seq::<u32>::empty());
    }
}

proof fn lemma_without(left: Seq<u32>, right: Seq<u32>, failed: Seq<u32>)
    ensures
        without(left + right, failed) == without(left, failed) + without(right, failed),
    decreases right.len(),
{
    if right.len() == 0 {
        assert(left + right =~= left);
        assert(without(left, failed) + without(right, failed) =~= without(left, failed));
    } else {
        assert((left + right).drop_last() =~= left + right.drop_last());
        lemma_without(left, right.drop_last(), failed);
        assert(without(left + right, failed) =~= without(left, failed) + without(right, failed));
    }
}

proof fn lemma_without_contains(ids: Seq<u32>, failed: Seq<u32>, id: u32)
    ensures
        without(ids, failed).contains(id) <==> ids.contains(id) && !failed.contains(id),
    decreases ids.len(),
{
    if ids.len() > 0 {
        let head = ids.drop_last();
        lemma_without_contains(head, failed, id);
        let kept = without(head, failed);
        assert(ids[ids.len() - 1] == ids.last());
        if ids.contains(id) && id != ids.last() {
            let i = choose|i: int| 0 <= i < ids.len() && ids[i] == id;
            assert(head[i] == id);
        }
        if head.contains(id) {
            let i = choose|i: int| 0 <= i < head.len() && head[i] == id;
            assert(ids[i] == id);
        }
        if !failed.contains(ids.last()) {
            let longer = kept.push(ids.last());
            assert(longer[kept.len() as int] == ids.last());
            if kept.contains(id) {
                let i = choose|i: int| 0 <= i < kept.len() && kept[i] == id;
                assert(longer[i] == id);
            }
            if longer.contains(id) && id != ids.last() {
                let i = choose|i: int| 0 <= i < longer.len() && longer[i] == id;
                assert(kept[i] == id);
            }
        }
    }
}

/// Who subscribes is told of everything from then on: an event gets the next number, goes to
/// all who are subscribed, and stays at hand for those who come back. It is handed out once.
pub proof fn law_subscribers_are_told<V: Copy>(
    subscribed: &mut StateStore<V>,
    emitting: &mut StateStore<V>,
    taken: &mut StateStore<V>,
    again: &mut StateStore<V>,
    channel: u32,
    subscription: (EventSubscription, Vec<Arc<AppEvent<V>>>),
    event_type: &str,
    payload: EventPayload<V>,
    event: Arc<AppEvent<V>>,
    pending: Vec<Delivery<V>>,
    nothing: Vec<Delivery<V>>,
)
    requires
        old(subscribed).wf(),
        old(subscribed)@.cursor < u64::MAX,
        call_ensures(
            StateStore::<V>::subscribe,
            (subscribed, None, channel),
            subscription,
        ),
        *old(emitting) == *final(subscribed),
        call_ensures(StateStore::<V>::emit, (emitting, event_type, payload), event),
        *old(taken) == *final(emitting),
        call_ensures(StateStore::<V>::take_pending, (taken,), pending),
        *old(again) == *final(taken),
        call_ensures(StateStore::<V>::take_pending, (again,), nothing),
    ensures
        subscription.0.current_cursor == old(subscribed)@.cursor,
        !subscription.0.resync_required,
        subscription.1@.len() == 0,
        event.cursor == old(subscribed)@.cursor + 1,
        event.event_type@ == event_type@,
        event.payload == payload,
        event.runtime_instance_id == subscription.0.runtime_instance_id,
        pending@.len() == old(subscribed)@.pending.len() + 1,
        pending@.last().event == event,
        pending@.last().subscribers@ == old(subscribed)@.subscribers.push(channel),
        final(again)@.recent.last() == event,
        final(again)@.cursor == event.cursor,
        nothing@.len() == 0,
{
    let before = old(emitting)@;
    let after = final(emitting)@;
    let delivery = choose|delivery: Delivery<V>|
        {
            &&& delivery.event == Arc::new(*event)
            &&& delivery.subscribers@ == before.subscribers
            &&& after == StoreState {
                cursor: event.cursor,
                recent: retained(
                    before.recent,
                    Arc::new(*event),
                    crate::event::EVENT_RETENTION as nat,
                ),
                pending: #[trigger] before.pending.push(delivery),
                ..before
            }
        };
    assert(pending@ == before.pending.push(delivery));
    assert(pending@.last() == delivery);
}

/// Who comes back gets exactly the events that were missed, as long as they are at hand: the
/// latest four thousand and ninety-six. Who was away longer, or comes back to another process,
/// is asked to fetch a snapshot, and gets none.
pub proof fn law_coming_back<V: Copy>(
    store: &mut StateStore<V>,
    resume: EventResume,
    channel: u32,
    result: (EventSubscription, Vec<Arc<AppEvent<V>>>),
)
    requires
        old(store).wf(),
        old(store)@.cursor < u64::MAX,
        resume.last_cursor <= old(store)@.cursor,
        call_ensures(
            StateStore::<V>::subscribe,
            (store, Some(resume), channel),
            result,
        ),
    ensures
        result.0.resync_required <==> resume.runtime_instance_id
            != old(store)@.runtime_instance_id || old(store)@.cursor - resume.last_cursor > 4096,
        result.0.resync_required ==> result.1@.len() == 0,
        !result.0.resync_required ==> {
            &&& result.1@.len() == old(store)@.cursor - resume.last_cursor
            &&& forall|i: int|
                0 <= i < result.1@.len() ==> (#[trigger] result.1@[i]).cursor
                    == resume.last_cursor + 1 + i
        },
        final(store)@.subscribers == old(store)@.subscribers.push(channel),
{
    old(store).lemma_gapless();
    if resume.runtime_instance_id == old(store)@.runtime_instance_id {
        law_snapshot_is_required_only_after_a_loss(old(store)@, resume);
        if !result.0.resync_required {
            law_resuming_misses_nothing(old(store)@, resume);
        }
    }
}

/// Setting something changes it, and nothing else that is known, and is told with what was
/// set.
pub proof fn law_setting_changes_one_thing<V: Copy>(
    sourced: &mut StateStore<V>,
    recorded: &mut StateStore<V>,
    source: Arc<SourceSnapshot>,
    session: Arc<SessionSnapshot>,
    source_event: &str,
    session_event: &str,
    other: Uuid,
)
    requires
        old(sourced).wf(),
        old(sourced)@.cursor < u64::MAX - 1,
        call_ensures(
            StateStore::<V>::set_source,
            (sourced, source, source_event),
            (),
        ),
        *old(recorded) == *final(sourced),
        call_ensures(
            StateStore::<V>::set_session,
            (recorded, session, session_event),
            (),
        ),
        other != source.source_id,
    ensures
        final(recorded)@.sources.dom().contains(source.source_id),
        final(recorded)@.sources[source.source_id] == source,
        final(recorded)@.sources.dom().contains(other) == old(sourced)@.sources.dom().contains(
            other,
        ),
        old(sourced)@.sources.dom().contains(other) ==> final(recorded)@.sources[other]
            == old(sourced)@.sources[other],
        final(recorded)@.session == session,
        final(sourced)@.session == old(sourced)@.session,
        final(recorded)@.project == old(sourced)@.project,
        final(recorded)@.latest == old(sourced)@.latest,
        final(recorded)@.errors == old(sourced)@.errors,
        final(recorded)@.cursor == old(sourced)@.cursor + 2,
        final(sourced)@.recent.last().payload == EventPayload::<V>::Source(source),
        final(sourced)@.recent.last().event_type@ == source_event@,
        final(recorded)@.recent.last().payload == EventPayload::<V>::Session(session),
        final(recorded)@.recent.last().event_type@ == session_event@,
{
}

/// A sequence with one more item, of which only so many are kept: the oldest one gives way.
pub open spec fn one_more<T>(before: Seq<T>, after: Seq<T>, limit: int) -> bool {
    &&& after.len() > 0
    &&& before.len() < limit ==> after.drop_last() == before
    &&& before.len() == limit ==> after.drop_last() == before.skip(1)
}

/// Errors are noted and told. The latest two hundred of them stay noted, and the latest four
/// thousand and ninety-six events stay at hand.
pub proof fn law_the_latest_errors_stay_noted<V: Copy>(store: &mut StateStore<V>, error: ToolboxError)
    requires
        old(store).wf(),
        call_ensures(StateStore::<V>::push_error, (store, error), ()),
    ensures
        final(store)@.errors.last()@ == error@,
        one_more(old(store)@.errors, final(store)@.errors, 200),
        one_more(old(store)@.recent, final(store)@.recent, 4096),
        final(store)@.recent.last().event_type@ == "error.raised"@,
        final(store)@.recent.last().payload == EventPayload::<V>::Error(
            final(store)@.errors.last(),
        ),
        old(store)@.cursor < u64::MAX ==> final(store)@.cursor == old(store)@.cursor + 1,
        final(store)@.sources == old(store)@.sources,
        final(store)@.latest == old(store)@.latest,
{
    let before = old(store)@;
    let after = final(store)@;
    let noted = Arc::new(error);
    assert(after.errors == retained(before.errors, noted, 200));
    if before.errors.len() == 200 {
        assert(after.errors.drop_last() =~= before.errors.skip(1));
    } else {
        assert(after.errors.drop_last() =~= before.errors);
    }
    let event = after.recent.last();
    assert(after.recent == retained(before.recent, event, 4096));
    if before.recent.len() == 4096 {
        assert(after.recent.drop_last() =~= before.recent.skip(1));
    } else {
        assert(after.recent.drop_last() =~= before.recent);
    }
}

/// A snapshot shows all that is known: the project, the session, the latest values and errors,
/// and each source once, in the order of their identifiers.
pub proof fn law_a_snapshot_shows_all_that_is_known<V: Copy>(
    store: &StateStore<V>,
    snapshot: AppSnapshot<V>,
    id: Uuid,
    place: int,
)
    requires
        store.wf(),
        call_ensures(StateStore::<V>::snapshot, (store,), snapshot),
    ensures
        snapshot.runtime_instance_id == store@.runtime_instance_id,
        snapshot.event_cursor == store@.cursor,
        snapshot.project == store@.project,
        snapshot.session == store@.session,
        snapshot.latest_channel_values@ == store@.latest,
        snapshot.recent_errors@ == store@.errors,
        store@.sources.dom().contains(id) ==> snapshot.sources@.contains(store@.sources[id]),
        0 <= place < snapshot.sources@.len() ==> exists|own: Uuid| #[trigger]
            store@.sources.dom().contains(own) && store@.sources[own] == snapshot.sources@[place],
{
    let order = choose|order: Seq<Uuid>| #[trigger]
        shown_in_order(snapshot.sources@, store@.sources, order);
    assert(shown_in_order(snapshot.sources@, store@.sources, order));
    if store@.sources.dom().contains(id) {
        assert(order.contains(id));
        let i = choose|i: int| 0 <= i < order.len() && order[i] == id;
        assert(snapshot.sources@[i] == store@.sources[id]);
    }
    if 0 <= place < snapshot.sources@.len() {
        assert(order.contains(order[place]));
        assert(store@.sources.dom().contains(order[place]));
    }
}

/// A store begins with its project, and with nothing told, known or noted; no session is there.
pub proof fn law_a_store_begins_empty<V: Copy>(
    project: Arc<ToolboxProject<V>>,
    store: StateStore<V>,
)
    requires
        call_ensures(StateStore::<V>::new, (project,), store),
    ensures
        store@.project == project,
        store@.cursor == 0,
        store@.recent.len() == 0,
        store@.pending.len() == 0,
        store@.subscribers.len() == 0,
        store@.errors.len() == 0,
        store@.sources == Map::<Uuid, Arc<SourceSnapshot>>::empty(),
        store@.latest == Map::<Uuid, V>::empty(),
        store@.session.status == SessionStatus::Idle,
        store@.session.session_id is None,
        store@.session.path is None,
        store@.session.bytes_written == 0,
{
}

/// Named values go into an event under their names, in the order in which they were added.
pub proof fn law_named_values_go_into_an_event<V: Copy>(
    empty: EventFields<V>,
    name: &str,
    value: EventValue<V>,
    one: EventFields<V>,
    other: &str,
    other_value: EventValue<V>,
    two: EventFields<V>,
    store: &mut StateStore<V>,
    event_type: &str,
)
    requires
        old(store).wf(),
        call_ensures(EventFields::<V>::new, (), empty),
        call_ensures(EventFields::<V>::with, (empty, name, value), one),
        call_ensures(EventFields::<V>::with, (one, other, other_value), two),
        call_ensures(StateStore::<V>::emit_fields, (store, event_type, two), ()),
    ensures
        latest_says(final(store)@, event_type@, name@, value@),
        latest_says(final(store)@, event_type@, other@, other_value@),
        fields_data(final(store)@.recent.last().payload->Fields_0@).len() == 2,
        fields_data(final(store)@.recent.last().payload->Fields_0@)[0] == (name@, value@),
{
    let data = two@;
    assert(data[0] == (name@, value@));
    assert(data[1] == (other@, other_value@));
    lemma_latest_says(old(store)@, event_type@, data, final(store)@, 0);
    lemma_latest_says(old(store)@, event_type@, data, final(store)@, 1);
    let entries = choose|entries: Vec<(String, EventValue<V>)>|
        {
            &&& #[trigger] told(
                old(store)@,
                event_type@,
                EventPayload::Fields(entries),
                final(store)@,
            )
            &&& fields_data(entries@) == data
        };
    assert(final(store)@.recent.last().payload == EventPayload::Fields(entries));
}

/// Streams go to all who have subscribed to them, in order, until they cannot be reached.
pub proof fn law_streams_go_to_their_subscribers(
    subscribing: &mut DataHub,
    dropping: &mut DataHub,
    channel: u32,
    count: usize,
    subscribed: &DataHub,
    recipients: Vec<u32>,
    failed: &Vec<u32>,
    id: u32,
)
    requires
        call_ensures(DataHub::subscribe, (subscribing, channel), count),
        *subscribed == *final(subscribing),
        call_ensures(DataHub::send, (subscribed,), recipients),
        *old(dropping) == *final(subscribing),
        call_ensures(DataHub::drop_subscribers, (dropping, failed), ()),
    ensures
        recipients@ == old(subscribing).subscribers().push(channel),
        count == recipients@.len(),
        final(dropping).subscribers().contains(id) <==> recipients@.contains(id)
            && !failed@.contains(id),
        failed@.len() == 0 ==> final(dropping).subscribers() == recipients@,
{
    lemma_without_contains(recipients@, failed@, id);
    if failed@.len() == 0 {
        lemma_without_none(recipients@, failed@);
    }
}

proof fn lemma_without_none(ids: Seq<u32>, failed: Seq<u32>)
    requires
        failed.len() == 0,
    ensures
        without(ids, failed) == ids,
    decreases ids.len(),
{
    if ids.len() > 0 {
        lemma_without_none(ids.drop_last(), failed);
        assert(ids.drop_last().push(ids.last()) =~= ids);
    } else {
        assert(without(ids, failed) =~= ids);
    }
}

} // verus!
