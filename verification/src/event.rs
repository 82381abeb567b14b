//! The state that the user interface mirrors, and the events that tell of changes.

use crate::error::{ErrorData, ToolboxError};
use crate::ident::{variant_bits, version_bits, Uuid};
use crate::idmap::IdMap;
use crate::model::{
    share, AppSnapshot, EventResume, EventSubscription, SessionSnapshot, SourceSnapshot,
    ToolboxProject, APP_VERSION,
};
use std::collections::VecDeque;
use std::sync::Arc;
use vstd::prelude::*;

verus! {

/// How many events a late subscriber can still be given.
pub const EVENT_RETENTION: usize = 4096;

/// How many errors a snapshot shows.
pub const ERROR_RETENTION: usize = 200;

/// A value that an event carries under a name.
#[derive(Debug, Clone)]
pub enum EventValue<V> {
    Flag(bool),
    Unsigned(u64),
    Signed(i64),
    Number(V),
    Text(String),
    Id(Uuid),
}

/// What an `EventValue` says.
#[verifier::ext_equal]
pub enum EventDatum<V> {
    Flag(bool),
    Unsigned(u64),
    Signed(i64),
    Number(V),
    Text(Seq<char>),
    Id(Uuid),
}

impl<V> View for EventValue<V> {
    type V = EventDatum<V>;

    open spec fn view(&self) -> EventDatum<V> {
        match self {
            EventValue::Flag(value) => EventDatum::Flag(*value),
            EventValue::Unsigned(value) => EventDatum::Unsigned(*value),
            EventValue::Signed(value) => EventDatum::Signed(*value),
            EventValue::Number(value) => EventDatum::Number(*value),
            EventValue::Text(value) => EventDatum::Text(value@),
            EventValue::Id(value) => EventDatum::Id(*value),
        }
    }
}

/// Named values of an event.
pub type EventData<V> = Seq<(Seq<char>, EventDatum<V>)>;

/// What named values say.
pub open spec fn fields_data<V>(entries: Seq<(String, EventValue<V>)>) -> EventData<V> {
    entries.map_values(|entry: (String, EventValue<V>)| (entry.0@, entry.1@))
}

/// Named values in the making.
pub struct EventFields<V> {
    entries: Vec<(String, EventValue<V>)>,
}

impl<V> View for EventFields<V> {
    type V = EventData<V>;

    closed spec fn view(&self) -> EventData<V> {
        fields_data(self.entries@)
    }
}

impl<V> EventFields<V> {
    /// No values.
    pub fn new() -> (fields: EventFields<V>)
        ensures
            fields@ == EventData::<V>::empty(),
    {
        let fields = EventFields { entries: Vec::new() };
        assert(fields@ =~= EventData::<V>::empty());
        fields
    }

    /// One more value.
    pub fn with(self, name: &str, value: EventValue<V>) -> (fields: EventFields<V>)
        ensures
            fields@ == self@.push((name@, value@)),
    {
        let mut entries = self.entries;
        let ghost before = entries@;
        entries.push((name.to_owned(), value));
        assert(fields_data(entries@) =~= fields_data(before).push((name@, value@)));
        EventFields { entries }
    }

    /// The values as a payload.
    pub fn payload(self) -> (payload: EventPayload<V>)
        ensures
            payload matches EventPayload::Fields(entries) && fields_data(entries@) == self@,
    {
        EventPayload::Fields(self.entries)
    }
}

/// What an event carries.
#[derive(Debug)]
pub enum EventPayload<V> {
    Project { project_id: Uuid, name: String },
    Source(Arc<SourceSnapshot>),
    Session(Arc<SessionSnapshot>),
    Error(Arc<ToolboxError>),
    Fields(Vec<(String, EventValue<V>)>),
}

/// A change of state, numbered.
#[derive(Debug)]
pub struct AppEvent<V> {
    pub runtime_instance_id: Uuid,
    pub cursor: u64,
    pub event_type: String,
    pub payload: EventPayload<V>,
}

/// An event on its way to those who had subscribed when it happened.
#[derive(Debug)]
pub struct Delivery<V> {
    pub event: Arc<AppEvent<V>>,
    pub subscribers: Vec<u32>,
}

/// Everything that the store holds.
#[verifier::ext_equal]
pub struct StoreState<V> {
    pub runtime_instance_id: Uuid,
    pub cursor: u64,
    pub recent: Seq<Arc<AppEvent<V>>>,
    pub subscribers: Seq<u32>,
    pub pending: Seq<Delivery<V>>,
    pub project: Arc<ToolboxProject<V>>,
    pub sources: Map<Uuid, Arc<SourceSnapshot>>,
    pub session: Arc<SessionSnapshot>,
    pub latest: Map<Uuid, V>,
    pub errors: Seq<Arc<ToolboxError>>,
}

/// A sequence with one more element at the end, which loses its first where it
/// would grow beyond a limit.
pub open spec fn retained<T>(items: Seq<T>, item: T, limit: nat) -> Seq<T> {
    if items.len() == limit {
        items.drop_first().push(item)
    } else {
        items.push(item)
    }
}

/// The cursor after a cursor; it stays at the largest one.
pub open spec fn next_cursor(cursor: u64) -> u64 {
    if cursor == u64::MAX {
        cursor
    } else {
        (cursor + 1) as u64
    }
}

/// `after` is `before` with one event emitted: it has the next cursor, is kept for
/// late subscribers and is on its way to the present ones.
pub open spec fn emitted<V>(
    before: StoreState<V>,
    event: AppEvent<V>,
    after: StoreState<V>,
) -> bool {
    &&& event.runtime_instance_id == before.runtime_instance_id
    &&& event.cursor == next_cursor(before.cursor)
    &&& exists|delivery: Delivery<V>|
        {
            &&& delivery.event == Arc::new(event)
            &&& delivery.subscribers@ == before.subscribers
            &&& after == StoreState {
                cursor: event.cursor,
                recent: retained(before.recent, Arc::new(event), EVENT_RETENTION as nat),
                pending: #[trigger] before.pending.push(delivery),
                ..before
            }
        }
}

/// `after` is `before` with an event of this type and payload emitted.
pub open spec fn told<V>(
    before: StoreState<V>,
    event_type: Seq<char>,
    payload: EventPayload<V>,
    after: StoreState<V>,
) -> bool {
    exists|event: AppEvent<V>|
        {
            &&& #[trigger] emitted(before, event, after)
            &&& event.event_type@ == event_type
            &&& event.payload == payload
        }
}

/// `after` is `before` with an event of this type and with these named values
/// emitted.
pub open spec fn told_fields<V>(
    before: StoreState<V>,
    event_type: Seq<char>,
    data: EventData<V>,
    after: StoreState<V>,
) -> bool {
    exists|entries: Vec<(String, EventValue<V>)>|
        {
            &&& #[trigger] told(before, event_type, EventPayload::Fields(entries), after)
            &&& fields_data(entries@) == data
        }
}

/// What the latest event says under a name.
pub open spec fn latest_says<V>(
    store: StoreState<V>,
    event_type: Seq<char>,
    name: Seq<char>,
    value: EventDatum<V>,
) -> bool {
    &&& store.recent.len() > 0
    &&& store.recent.last().event_type@ == event_type
    &&& store.recent.last().payload is Fields
    &&& fields_data(store.recent.last().payload->Fields_0@).contains((name, value))
}

/// What was told last is what the latest event says.
pub proof fn lemma_latest_says<V>(
    before: StoreState<V>,
    event_type: Seq<char>,
    data: EventData<V>,
    after: StoreState<V>,
    i: int,
)
    requires
        told_fields(before, event_type, data, after),
        0 <= i < data.len(),
    ensures
        latest_says(after, event_type, data[i].0, data[i].1),
{
    let entries = choose|entries: Vec<(String, EventValue<V>)>|
        {
            &&& #[trigger] told(before, event_type, EventPayload::Fields(entries), after)
            &&& fields_data(entries@) == data
        };
    assert(told(before, event_type, EventPayload::Fields(entries), after));
    assert(after.recent.last().payload == EventPayload::Fields(entries));
    assert(fields_data(entries@)[i] == (data[i].0, data[i].1));
}

/// What an event that is on its way says under a name.
pub open spec fn delivery_says<V>(
    delivery: Delivery<V>,
    event_type: Seq<char>,
    name: Seq<char>,
    value: EventDatum<V>,
) -> bool {
    &&& delivery.event.event_type@ == event_type
    &&& delivery.event.payload is Fields
    &&& fields_data(delivery.event.payload->Fields_0@).contains((name, value))
}

/// What is told is on its way behind all that was told before.
pub proof fn lemma_told_is_on_its_way<V>(
    before: StoreState<V>,
    event_type: Seq<char>,
    data: EventData<V>,
    after: StoreState<V>,
)
    requires
        told_fields(before, event_type, data, after),
    ensures
        after.pending.len() == before.pending.len() + 1,
        forall|i: int|
            0 <= i < before.pending.len() ==> #[trigger] after.pending[i] == before.pending[i],
        forall|i: int|
            0 <= i < data.len() ==> delivery_says(
                after.pending.last(),
                event_type,
                (#[trigger] data[i]).0,
                data[i].1,
            ),
        after.subscribers == before.subscribers,
{
    let entries = choose|entries: Vec<(String, EventValue<V>)>|
        {
            &&& #[trigger] told(before, event_type, EventPayload::Fields(entries), after)
            &&& fields_data(entries@) == data
        };
    let event = choose|event: AppEvent<V>|
        {
            &&& #[trigger] emitted(before, event, after)
            &&& event.event_type@ == event_type
            &&& event.payload == EventPayload::Fields(entries)
        };
    let delivery = choose|delivery: Delivery<V>|
        {
            &&& delivery.event == Arc::new(event)
            &&& delivery.subscribers@ == before.subscribers
            &&& after == StoreState {
                cursor: event.cursor,
                recent: retained(before.recent, Arc::new(event), EVENT_RETENTION as nat),
                pending: #[trigger] before.pending.push(delivery),
                ..before
            }
        };
    assert(after.pending == before.pending.push(delivery));
    assert forall|i: int| 0 <= i < data.len() implies delivery_says(
        after.pending.last(),
        event_type,
        (#[trigger] data[i]).0,
        data[i].1,
    ) by {
        assert(fields_data(entries@)[i] == (data[i].0, data[i].1));
    }
}

/// `after` is `before` with an error of this content noted and told of.
pub open spec fn told_error<V>(
    before: StoreState<V>,
    error: ErrorData,
    after: StoreState<V>,
) -> bool {
    exists|noted: Arc<ToolboxError>|
        {
            &&& #[trigger] told(
                before.with_error(noted),
                "error.raised"@,
                EventPayload::Error(noted),
                after,
            )
            &&& noted@ == error
        }
}

/// The values of channels after some of them changed.
pub open spec fn updated<V>(values: Map<Uuid, V>, changes: Seq<(Uuid, V)>) -> Map<Uuid, V>
    decreases changes.len(),
{
    if changes.len() == 0 {
        values
    } else {
        updated(values, changes.drop_last()).insert(changes.last().0, changes.last().1)
    }
}

/// Whether a subscriber that left off somewhere has to fetch a snapshot.
pub open spec fn resume_needs_snapshot(
    runtime_instance_id: Uuid,
    earliest_cursor: u64,
    resume: EventResume,
) -> bool {
    ||| resume.runtime_instance_id != runtime_instance_id
    ||| next_cursor(resume.last_cursor) < earliest_cursor
}

/// The cursor of the earliest event that can still be given.
pub open spec fn earliest_cursor<V>(state: StoreState<V>) -> u64 {
    if state.recent.len() > 0 {
        state.recent[0].cursor
    } else {
        next_cursor(state.cursor)
    }
}

/// The events after a cursor, in order.
pub open spec fn events_after<V>(events: Seq<Arc<AppEvent<V>>>, cursor: u64) -> Seq<
    Arc<AppEvent<V>>,
>
    decreases events.len(),
{
    if events.len() == 0 {
        Seq::empty()
    } else if events.last().cursor > cursor {
        events_after(events.drop_last(), cursor).push(events.last())
    } else {
        events_after(events.drop_last(), cursor)
    }
}

/// What a new subscriber is given at once.
pub open spec fn backlog<V>(state: StoreState<V>, resume: Option<EventResume>) -> Seq<
    Arc<AppEvent<V>>,
> {
    match resume {
        Some(resume) => if resume_needs_snapshot(
            state.runtime_instance_id,
            earliest_cursor(state),
            resume,
        ) {
            Seq::empty()
        } else {
            events_after(state.recent, resume.last_cursor)
        },
        None => Seq::empty(),
    }
}

/// The identifiers that did not fail, in order.
pub open spec fn without(ids: Seq<u32>, failed: Seq<u32>) -> Seq<u32>
    decreases ids.len(),
{
    if ids.len() == 0 {
        Seq::empty()
    } else if failed.contains(ids.last()) {
        without(ids.drop_last(), failed)
    } else {
        without(ids.drop_last(), failed).push(ids.last())
    }
}

/// `shown` are sources in the order of their identifiers, each once.
pub open spec fn shown_in_order(
    shown: Seq<Arc<SourceSnapshot>>,
    sources: Map<Uuid, Arc<SourceSnapshot>>,
    order: Seq<Uuid>,
) -> bool {
    &&& forall|i: int, j: int|
        0 <= i < j < order.len() ==> (#[trigger] order[i]).value < (#[trigger] order[j]).value
    &&& forall|id: Uuid| #[trigger] sources.dom().contains(id) <==> order.contains(id)
    &&& shown.len() == order.len()
    &&& forall|i: int| 0 <= i < shown.len() ==> (#[trigger] shown[i]) == sources[order[i]]
}

/// `snapshot` shows the whole state.
pub open spec fn shows<V>(snapshot: AppSnapshot<V>, state: StoreState<V>) -> bool {
    &&& snapshot.runtime_instance_id == state.runtime_instance_id
    &&& snapshot.app_version@ == APP_VERSION@
    &&& snapshot.event_cursor == state.cursor
    &&& snapshot.project == state.project
    &&& exists|order: Seq<Uuid>| #[trigger]
        shown_in_order(snapshot.sources@, state.sources, order)
    &&& snapshot.session == state.session
    &&& snapshot.latest_channel_values.wf()
    &&& snapshot.latest_channel_values@ == state.latest
    &&& snapshot.recent_errors@ == state.errors
}

impl<V> StoreState<V> {
    /// The state in which nothing has happened yet, under a fresh runtime identifier.
    pub open spec fn untouched(self, project: Arc<ToolboxProject<V>>) -> bool {
        &&& version_bits(self.runtime_instance_id.value) == 7
        &&& variant_bits(self.runtime_instance_id.value) == 2
        &&& self.cursor == 0
        &&& self.recent == Seq::<Arc<AppEvent<V>>>::empty()
        &&& self.subscribers == Seq::<u32>::empty()
        &&& self.pending == Seq::<Delivery<V>>::empty()
        &&& self.project == project
        &&& self.sources == Map::<Uuid, Arc<SourceSnapshot>>::empty()
        &&& self.session.is_initial()
        &&& self.latest == Map::<Uuid, V>::empty()
        &&& self.errors == Seq::<Arc<ToolboxError>>::empty()
    }

    /// The same state with another project.
    pub open spec fn with_project(self, project: Arc<ToolboxProject<V>>) -> StoreState<V> {
        StoreState { project, ..self }
    }

    /// The same state with a source replaced or added.
    pub open spec fn with_source(self, source: Arc<SourceSnapshot>) -> StoreState<V> {
        StoreState { sources: self.sources.insert(source.source_id, source), ..self }
    }

    /// The same state with another session.
    pub open spec fn with_session(self, session: Arc<SessionSnapshot>) -> StoreState<V> {
        StoreState { session, ..self }
    }

    /// The same state with one more error noted.
    pub open spec fn with_error(self, error: Arc<ToolboxError>) -> StoreState<V> {
        StoreState { errors: retained(self.errors, error, ERROR_RETENTION as nat), ..self }
    }

    /// The events kept are the latest ones, all that there were until there were too many,
    /// and numbered without gaps up to the cursor. (Cursors that have reached the largest
    /// number no longer tell events apart.)
    pub open spec fn gapless(self) -> bool {
        &&& self.recent.len() == if self.cursor < EVENT_RETENTION {
            self.cursor as nat
        } else {
            EVENT_RETENTION as nat
        }
        &&& self.errors.len() <= ERROR_RETENTION
        &&& self.cursor < u64::MAX ==> forall|i: int|
            0 <= i < self.recent.len() ==> (#[trigger] self.recent[i]).cursor == self.cursor
                - self.recent.len() + 1 + i
    }
}

fn contains_id(ids: &Vec<u32>, id: u32) -> (found: bool)
    ensures
        found == ids@.contains(id),
{
    let mut i: usize = 0;
    while i < ids.len()
        invariant
            i <= ids@.len(),
            forall|j: int| 0 <= j < i ==> ids@[j] != id,
        decreases ids@.len() - i,
    {
        if ids[i] == id {
            assert(ids@[i as int] == id);
            return true;
        }
        i += 1;
    }
    false
}

/// The identifiers that did not fail, in order.
fn remaining(ids: &Vec<u32>, failed: &Vec<u32>) -> (kept: Vec<u32>)
    ensures
        kept@ == without(ids@, failed@),
{
    let mut kept: Vec<u32> = Vec::new();
    let mut i: usize = 0;
    assert(ids@.take(0) =~= Seq::<u32>::empty());
    while i < ids.len()
        invariant
            i <= ids@.len(),
            kept@ == without(ids@.take(i as int), failed@),
        decreases ids@.len() - i,
    {
        assert(ids@.take(i + 1).drop_last() =~= ids@.take(i as int));
        if !contains_id(failed, ids[i]) {
            kept.push(ids[i]);
        }
        i += 1;
    }
    assert(ids@.take(ids@.len() as int) =~= ids@);
    kept
}

fn copy_ids(ids: &Vec<u32>) -> (copy: Vec<u32>)
    ensures
        copy@ == ids@,
{
    let copy = ids.clone();
    assert(copy@ =~= ids@);
    copy
}

/// Whether a subscriber that left off somewhere has to fetch a snapshot: the process
/// was restarted, or events after that point are gone.
pub fn resume_requires_snapshot(
    runtime_instance_id: Uuid,
    earliest_cursor: u64,
    resume: &EventResume,
) -> (required: bool)
    ensures
        required == resume_needs_snapshot(runtime_instance_id, earliest_cursor, *resume),
{
    resume.runtime_instance_id != runtime_instance_id || resume.last_cursor.saturating_add(1)
        < earliest_cursor
}

/// Holds the state and numbers its changes.
pub struct StateStore<V> {
    runtime_instance_id: Uuid,
    cursor: u64,
    recent_events: VecDeque<Arc<AppEvent<V>>>,
    subscribers: Vec<u32>,
    pending: Vec<Delivery<V>>,
    project: Arc<ToolboxProject<V>>,
    sources: IdMap<Arc<SourceSnapshot>>,
    session: Arc<SessionSnapshot>,
    latest_channel_values: IdMap<V>,
    recent_errors: VecDeque<Arc<ToolboxError>>,
}

impl<V> View for StateStore<V> {
    type V = StoreState<V>;

    closed spec fn view(&self) -> StoreState<V> {
        StoreState {
            runtime_instance_id: self.runtime_instance_id,
            cursor: self.cursor,
            recent: self.recent_events@,
            subscribers: self.subscribers@,
            pending: self.pending@,
            project: self.project,
            sources: self.sources@,
            session: self.session,
            latest: self.latest_channel_values@,
            errors: self.recent_errors@,
        }
    }
}

impl<V: Copy> StateStore<V> {
    /// The maps are well formed, and the events are numbered without gaps.
    pub closed spec fn wf(&self) -> bool {
        &&& self.sources.wf()
        &&& self.latest_channel_values.wf()
        &&& self@.gapless()
    }

    /// The identifiers of the sources in the order in which a snapshot shows them.
    pub closed spec fn source_order(&self) -> Seq<Uuid> {
        self.sources.ids()
    }

    /// The events of a well-formed store are numbered without gaps.
    pub proof fn lemma_gapless(&self)
        requires
            self.wf(),
        ensures
            self@.gapless(),
    {
    }

    /// The order of the sources is ascending, and it has all of them.
    pub proof fn lemma_source_order(&self)
        requires
            self.wf(),
        ensures
            forall|i: int, j: int|
                0 <= i < j < self.source_order().len() ==> (
                #[trigger] self.source_order()[i]).value < (#[trigger] self.source_order()[j]).value,
            forall|id: Uuid| #[trigger]
                self@.sources.dom().contains(id) <==> self.source_order().contains(id),
    {
        self.sources.lemma_ids();
    }

    /// A store for a project, under a fresh runtime identifier, in which nothing has
    /// happened yet.
    pub fn new(project: Arc<ToolboxProject<V>>) -> (store: StateStore<V>)
        ensures
            store.wf(),
            store@.untouched(project),
    {
        let store = StateStore {
            runtime_instance_id: Uuid::now_v7(),
            cursor: 0,
            recent_events: VecDeque::new(),
            subscribers: Vec::new(),
            pending: Vec::new(),
            project,
            sources: IdMap::new(),
            session: Arc::new(SessionSnapshot::default()),
            latest_channel_values: IdMap::new(),
            recent_errors: VecDeque::new(),
        };
        assert(store@.recent =~= Seq::<Arc<AppEvent<V>>>::empty());
        assert(store@.errors =~= Seq::<Arc<ToolboxError>>::empty());
        assert(store@.pending =~= Seq::<Delivery<V>>::empty());
        assert(store@.subscribers =~= Seq::<u32>::empty());
        store
    }

    /// The identifier of this run of the process.
    pub fn runtime_instance_id(&self) -> (id: Uuid)
        ensures
            id == self@.runtime_instance_id,
    {
        self.runtime_instance_id
    }

    /// The whole state at the present cursor.
    pub fn snapshot(&self) -> (snapshot: AppSnapshot<V>)
        requires
            self.wf(),
        ensures
            shows(snapshot, self@),
            snapshot.sources@.len() == self.source_order().len(),
            forall|i: int|
                0 <= i < snapshot.sources@.len() ==> (#[trigger] snapshot.sources@[i])
                    == self@.sources[self.source_order()[i]],
    {
        let mut sources: Vec<Arc<SourceSnapshot>> = Vec::new();
        let count = self.sources.len();
        let mut i: usize = 0;
        while i < count
            invariant
                i <= count,
                count == self.sources.ids().len(),
                self.sources.wf(),
                sources@.len() == i,
                forall|j: int|
                    0 <= j < i ==> (#[trigger] sources@[j]) == self.sources@[self.sources.ids()[j]],
            decreases count - i,
        {
            let (_, source) = self.sources.entry(i);
            sources.push(share(source));
            i += 1;
        }
        let mut recent_errors: Vec<Arc<ToolboxError>> = Vec::new();
        let error_count = self.recent_errors.len();
        let mut k: usize = 0;
        while k < error_count
            invariant
                k <= error_count,
                error_count == self.recent_errors@.len(),
                recent_errors@ == self.recent_errors@.take(k as int),
            decreases error_count - k,
        {
            recent_errors.push(share(&self.recent_errors[k]));
            assert(recent_errors@ =~= self.recent_errors@.take(k + 1));
            k += 1;
        }
        assert(recent_errors@ =~= self.recent_errors@);
        let snapshot = AppSnapshot {
            runtime_instance_id: self.runtime_instance_id,
            app_version: APP_VERSION.to_owned(),
            event_cursor: self.cursor,
            project: share(&self.project),
            sources,
            session: share(&self.session),
            latest_channel_values: self.latest_channel_values.copied(),
            recent_errors,
        };
        proof {
            self.lemma_source_order();
            assert(shown_in_order(snapshot.sources@, self@.sources, self.source_order()));
        }
        snapshot
    }

    /// The present project.
    pub fn project(&self) -> (project: Arc<ToolboxProject<V>>)
        ensures
            project == self@.project,
    {
        share(&self.project)
    }

    /// The present state of a source.
    pub fn source(&self, source_id: Uuid) -> (source: Option<Arc<SourceSnapshot>>)
        requires
            self.wf(),
        ensures
            match source {
                Some(source) => self@.sources.dom().contains(source_id)
                    && self@.sources[source_id] == source,
                None => !self@.sources.dom().contains(source_id),
            },
    {
        match self.sources.get(source_id) {
            Some(source) => Some(share(source)),
            None => None,
        }
    }

    /// Numbers an event, keeps it and puts it on its way.
    fn publish(&mut self, event_type: &str, payload: EventPayload<V>) -> (event: Arc<AppEvent<V>>)
        requires
            old(self).wf(),
        ensures
            final(self).wf(),
            event.event_type@ == event_type@,
            event.payload == payload,
            emitted(old(self)@, *event, final(self)@),
            told(old(self)@, event_type@, payload, final(self)@),
    {
        let ghost before = self@;
        self.cursor = self.cursor.saturating_add(1);
        let event = Arc::new(
            AppEvent {
                runtime_instance_id: self.runtime_instance_id,
                cursor: self.cursor,
                event_type: event_type.to_owned(),
                payload,
            },
        );
        if self.recent_events.len() == EVENT_RETENTION {
            self.recent_events.pop_front();
            assert(self.recent_events@ =~= before.recent.drop_first());
        }
        self.recent_events.push_back(share(&event));
        assert(self.recent_events@ =~= retained(before.recent, event, EVENT_RETENTION as nat));
        let delivery = Delivery { event: share(&event), subscribers: copy_ids(&self.subscribers) };
        let ghost outgoing = delivery;
        self.pending.push(delivery);
        proof {
            assert(self@ =~= StoreState {
                cursor: event.cursor,
                recent: retained(before.recent, event, EVENT_RETENTION as nat),
                pending: before.pending.push(outgoing),
                ..before
            });
            assert(emitted(before, *event, self@));
        }
        event
    }

    /// Replaces the project and tells of it.
    pub fn set_project(&mut self, project: Arc<ToolboxProject<V>>)
        requires
            old(self).wf(),
        ensures
            final(self).wf(),
            told(
                old(self)@.with_project(project),
                "project.changed"@,
                EventPayload::Project { project_id: project.id, name: project.name },
                final(self)@,
            ),
    {
        let payload = EventPayload::Project { project_id: project.id, name: project.name.clone() };
        self.project = project;
        assert(self@ =~= old(self)@.with_project(project));
        let event = self.publish("project.changed", payload);
    }

    /// Replaces what is known of a source and tells of it.
    pub fn set_source(&mut self, source: Arc<SourceSnapshot>, event_type: &str)
        requires
            old(self).wf(),
        ensures
            final(self).wf(),
            told(
                old(self)@.with_source(source),
                event_type@,
                EventPayload::Source(source),
                final(self)@,
            ),
    {
        let payload = EventPayload::Source(share(&source));
        let id = source.source_id;
        self.sources.insert(id, source);
        assert(self@ =~= old(self)@.with_source(source));
        let event = self.publish(event_type, payload);
    }

    /// Replaces what is known of a source without telling of it.
    pub fn update_source_silent(&mut self, source: Arc<SourceSnapshot>)
        requires
            old(self).wf(),
        ensures
            final(self).wf(),
            final(self)@ == old(self)@.with_source(source),
    {
        let id = source.source_id;
        self.sources.insert(id, source);
        assert(self@ =~= old(self)@.with_source(source));
    }

    /// Replaces the state of the session and tells of it.
    pub fn set_session(&mut self, session: Arc<SessionSnapshot>, event_type: &str)
        requires
            old(self).wf(),
        ensures
            final(self).wf(),
            told(
                old(self)@.with_session(session),
                event_type@,
                EventPayload::Session(session),
                final(self)@,
            ),
    {
        let payload = EventPayload::Session(share(&session));
        self.session = session;
        assert(self@ =~= old(self)@.with_session(session));
        let event = self.publish(event_type, payload);
    }

    /// Replaces the latest values of channels.
    pub fn update_latest_values(&mut self, values: &[(Uuid, V)])
        requires
            old(self).wf(),
        ensures
            final(self).wf(),
            final(self)@ == (StoreState {
                latest: updated(old(self)@.latest, values@),
                ..old(self)@
            }),
    {
        let ghost start = self@.latest;
        let mut i: usize = 0;
        assert(values@.take(0) =~= Seq::<(Uuid, V)>::empty());
        assert(self@ =~= StoreState {
            latest: updated(start, values@.take(0)),
            ..old(self)@
        });
        while i < values.len()
            invariant
                i <= values@.len(),
                self.wf(),
                start == old(self)@.latest,
                self@ == (StoreState {
                    latest: updated(start, values@.take(i as int)),
                    ..old(self)@
                }),
            decreases values@.len() - i,
        {
            assert(values@.take(i + 1).drop_last() =~= values@.take(i as int));
            self.latest_channel_values.insert(values[i].0, values[i].1);
            assert(self@ =~= StoreState {
                latest: updated(start, values@.take(i + 1)),
                ..old(self)@
            });
            i += 1;
        }
        assert(values@.take(values@.len() as int) =~= values@);
    }

    /// Notes an error and tells of it.
    pub fn push_error(&mut self, error: ToolboxError)
        requires
            old(self).wf(),
        ensures
            final(self).wf(),
            told(
                old(self)@.with_error(Arc::new(error)),
                "error.raised"@,
                EventPayload::Error(Arc::new(error)),
                final(self)@,
            ),
            told_error(old(self)@, error@, final(self)@),
    {
        let error = Arc::new(error);
        if self.recent_errors.len() == ERROR_RETENTION {
            self.recent_errors.pop_front();
            assert(self.recent_errors@ =~= old(self)@.errors.drop_first());
        }
        self.recent_errors.push_back(share(&error));
        assert(self.recent_errors@ =~= retained(
            old(self)@.errors,
            error,
            ERROR_RETENTION as nat,
        ));
        assert(self@ =~= old(self)@.with_error(error));
        let event = self.publish("error.raised", EventPayload::Error(error));
    }

    /// Tells of something that changes no state.
    pub fn emit(&mut self, event_type: &str, payload: EventPayload<V>) -> (event: Arc<AppEvent<V>>)
        requires
            old(self).wf(),
        ensures
            final(self).wf(),
            event.event_type@ == event_type@,
            event.payload == payload,
            emitted(old(self)@, *event, final(self)@),
            told(old(self)@, event_type@, payload, final(self)@),
    {
        self.publish(event_type, payload)
    }

    /// Tells of something that changes no state, by named values.
    pub fn emit_fields(&mut self, event_type: &str, fields: EventFields<V>)
        requires
            old(self).wf(),
        ensures
            final(self).wf(),
            told_fields(old(self)@, event_type@, fields@, final(self)@),
    {
        let payload = fields.payload();
        let event = self.publish(event_type, payload);
    }

    /// Hands out the events that are on their way.
    pub fn take_pending(&mut self) -> (pending: Vec<Delivery<V>>)
        requires
            old(self).wf(),
        ensures
            final(self).wf(),
            pending@ == old(self)@.pending,
            final(self)@ == (StoreState { pending: Seq::empty(), ..old(self)@ }),
    {
        let mut pending: Vec<Delivery<V>> = Vec::new();
        std::mem::swap(&mut pending, &mut self.pending);
        assert(self@ =~= StoreState { pending: Seq::empty(), ..old(self)@ });
        pending
    }

    /// Adds a subscriber, and hands out the events that it has missed since it left
    /// off, unless it has to fetch a snapshot.
    pub fn subscribe(&mut self, resume: Option<EventResume>, channel: u32) -> (result: (
        EventSubscription,
        Vec<Arc<AppEvent<V>>>,
    ))
        requires
            old(self).wf(),
        ensures
            final(self).wf(),
            final(self)@ == (StoreState {
                subscribers: old(self)@.subscribers.push(channel),
                ..old(self)@
            }),
            result.0.runtime_instance_id == old(self)@.runtime_instance_id,
            result.0.current_cursor == old(self)@.cursor,
            result.0.resync_required == (resume matches Some(resume) && resume_needs_snapshot(
                old(self)@.runtime_instance_id,
                earliest_cursor(old(self)@),
                resume,
            )),
            result.1@ == backlog(old(self)@, resume),
    {
        let mut resync_required = false;
        let mut missed: Vec<Arc<AppEvent<V>>> = Vec::new();
        assert(missed@ =~= Seq::<Arc<AppEvent<V>>>::empty());
        if let Some(resume) = resume {
            let count = self.recent_events.len();
            let earliest = if count > 0 {
                self.recent_events[0].cursor
            } else {
                self.cursor.saturating_add(1)
            };
            if resume_requires_snapshot(self.runtime_instance_id, earliest, &resume) {
                resync_required = true;
            } else {
                let ghost recent = self.recent_events@;
                let mut i: usize = 0;
                assert(recent.take(0) =~= Seq::<Arc<AppEvent<V>>>::empty());
                while i < count
                    invariant
                        i <= count,
                        count == self.recent_events@.len(),
                        recent == self.recent_events@,
                        missed@ == events_after(recent.take(i as int), resume.last_cursor),
                    decreases count - i,
                {
                    assert(recent.take(i + 1).drop_last() =~= recent.take(i as int));
                    if self.recent_events[i].cursor > resume.last_cursor {
                        missed.push(share(&self.recent_events[i]));
                    }
                    i += 1;
                }
                assert(recent.take(count as int) =~= recent);
            }
        }
        self.subscribers.push(channel);
        assert(self@ =~= StoreState {
            subscribers: old(self)@.subscribers.push(channel),
            ..old(self)@
        });
        (
            EventSubscription {
                runtime_instance_id: self.runtime_instance_id,
                current_cursor: self.cursor,
                resync_required,
            },
            missed,
        )
    }

    /// Forgets subscribers that could not be reached.
    pub fn drop_subscribers(&mut self, failed: &Vec<u32>)
        requires
            old(self).wf(),
        ensures
            final(self).wf(),
            final(self)@ == (StoreState {
                subscribers: without(old(self)@.subscribers, failed@),
                ..old(self)@
            }),
    {
        let kept = remaining(&self.subscribers, failed);
        self.subscribers = kept;
        assert(self@ =~= StoreState {
            subscribers: without(old(self)@.subscribers, failed@),
            ..old(self)@
        });
    }
}

/// A subscriber that need not fetch a snapshot misses nothing: it is given exactly
/// the events after the one where it left off, without gaps, up to the cursor that
/// it is told.
pub proof fn law_resuming_misses_nothing<V>(state: StoreState<V>, resume: EventResume)
    requires
        state.gapless(),
        state.cursor < u64::MAX,
        resume.last_cursor <= state.cursor,
        !resume_needs_snapshot(state.runtime_instance_id, earliest_cursor(state), resume),
    ensures
        backlog(state, Some(resume)).len() == state.cursor - resume.last_cursor,
        forall|i: int|
            0 <= i < backlog(state, Some(resume)).len() ==> (
            #[trigger] backlog(state, Some(resume))[i]).cursor == resume.last_cursor + 1 + i,
{
    lemma_events_after(state.recent, state.cursor, resume.last_cursor);
}

/// The events after a cursor among events that are numbered without gaps.
proof fn lemma_events_after<V>(events: Seq<Arc<AppEvent<V>>>, last: u64, cursor: u64)
    requires
        events.len() <= last,
        cursor <= last,
        forall|i: int|
            0 <= i < events.len() ==> (#[trigger] events[i]).cursor == last - events.len() + 1 + i,
    ensures
        events_after(events, cursor).len() == if last - cursor <= events.len() {
            (last - cursor) as nat
        } else {
            events.len()
        },
        forall|i: int|
            0 <= i < events_after(events, cursor).len() ==> (
            #[trigger] events_after(events, cursor)[i]).cursor == last - events_after(
                events,
                cursor,
            ).len() + 1 + i,
    decreases events.len(),
{
    if events.len() > 0 {
        let head = events.drop_last();
        if last > cursor {
            lemma_events_after(head, (last - 1) as u64, cursor);
        } else {
            assert forall|i: int| 0 <= i < head.len() implies (#[trigger] head[i]).cursor
                <= cursor by {
                assert(head[i] == events[i]);
            }
            lemma_none_after(head, cursor);
        }
    }
}

proof fn lemma_none_after<V>(events: Seq<Arc<AppEvent<V>>>, cursor: u64)
    requires
        forall|i: int| 0 <= i < events.len() ==> (#[trigger] events[i]).cursor <= cursor,
    ensures
        events_after(events, cursor).len() == 0,
    decreases events.len(),
{
    if events.len() > 0 {
        assert forall|i: int| 0 <= i < events.drop_last().len() implies (
        #[trigger] events.drop_last()[i]).cursor <= cursor by {
            assert(events.drop_last()[i] == events[i]);
        }
        lemma_none_after(events.drop_last(), cursor);
    }
}

/// A subscriber has to fetch a snapshot exactly when the process is another one or
/// an event that it has not seen is gone.
pub proof fn law_snapshot_is_required_only_after_a_loss<V>(state: StoreState<V>, resume: EventResume)
    requires
        state.gapless(),
        state.cursor < u64::MAX,
        resume.runtime_instance_id == state.runtime_instance_id,
    ensures
        resume_needs_snapshot(state.runtime_instance_id, earliest_cursor(state), resume) <==> (
        resume.last_cursor + 1 < state.cursor - state.recent.len() + 1),
        resume_needs_snapshot(state.runtime_instance_id, earliest_cursor(state), resume) <==> (
        resume.last_cursor + EVENT_RETENTION < state.cursor),
{
}

/// Emitting keeps events numbered without gaps, and moves the cursor by one.
pub proof fn law_every_event_advances_the_cursor_by_one<V>(
    before: StoreState<V>,
    event: AppEvent<V>,
    after: StoreState<V>,
)
    requires
        before.gapless(),
        before.cursor < u64::MAX,
        emitted(before, event, after),
    ensures
        after.gapless(),
        after.cursor == before.cursor + 1,
        event.cursor == after.cursor,
        after.recent.last() == Arc::new(event),
{
    let limit = EVENT_RETENTION as nat;
    assert(after.recent == retained(before.recent, Arc::new(event), limit));
    if after.cursor < u64::MAX {
        assert forall|i: int| 0 <= i < after.recent.len() implies (
        #[trigger] after.recent[i]).cursor == after.cursor - after.recent.len() + 1 + i by {
            if i < after.recent.len() - 1 {
                if before.recent.len() == limit {
                    assert(after.recent[i] == before.recent[i + 1]);
                } else {
                    assert(after.recent[i] == before.recent[i]);
                }
            }
        }
    }
}

/// Who receives the data streams.
pub struct DataHub {
    subscribers: Vec<u32>,
}

impl DataHub {
    /// The subscribers in order of arrival.
    pub closed spec fn subscribers(&self) -> Seq<u32> {
        self.subscribers@
    }

    /// A hub without subscribers.
    pub fn new() -> (hub: DataHub)
        ensures
            hub.subscribers() == Seq::<u32>::empty(),
    {
        DataHub { subscribers: Vec::new() }
    }

    /// Adds a subscriber and tells how many there are.
    pub fn subscribe(&mut self, channel: u32) -> (count: usize)
        ensures
            final(self).subscribers() == old(self).subscribers().push(channel),
            count == final(self).subscribers().len(),
    {
        self.subscribers.push(channel);
        self.subscribers.len()
    }

    /// Whom a message goes to, in order.
    pub fn send(&self) -> (recipients: Vec<u32>)
        ensures
            recipients@ == self.subscribers(),
    {
        copy_ids(&self.subscribers)
    }

    /// Forgets subscribers that could not be reached.
    pub fn drop_subscribers(&mut self, failed: &Vec<u32>)
        ensures
            final(self).subscribers() == without(old(self).subscribers(), failed@),
    {
        let kept = remaining(&self.subscribers, failed);
        self.subscribers = kept;
    }
}

} // verus!
