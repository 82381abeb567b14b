//! The workbench as a whole: which source is connected, and what may be done with it.

use crate::error::{failure, ErrorCode, ErrorData, ToolboxError, ToolboxResult};
use crate::event::{
    backlog, earliest_cursor, latest_says, lemma_latest_says, resume_needs_snapshot,
    shown_in_order, shows, told, told_fields, AppEvent, DataHub,
    EventData, EventDatum, EventFields, EventPayload, EventValue, StateStore, StoreState,
};
use crate::ident::{variant_bits, version_bits, Uuid};
use crate::idmap::IdMap;
use crate::model::{
    share, AppSnapshot, ClockAnchor, EventResume, EventSubscription, QueueDepths, SerialConfig,
    SerialPortDescriptor, SessionSnapshot, SessionStatus, SourceProfile, SourceSnapshot, SourceStats, SourceStatus, SyntheticConfig,
    ToolboxProject, TxAccepted, TxRequest,
};
use crate::project::{
    project_defect, same_line_semantics, serial_semantics_equal, valid_project, validate_project,
};
use crate::queue::{ByteSize, OverflowPolicy, QueueState};
use crate::reconnect::{
    find_named, first_named, lemma_first_named, reconnect_port,
    select_reconnect_config_from_ports,
    SerialReconnectPlan, AUTO_RECONNECT_RETRY_NS,
};
use crate::replay::{seek_requested, ReplayControl};
use crate::runtime::{just_connected, nothing_passed, source_told, FanoutState, RecorderItem, SourceRuntime};
use crate::session::{
    active, offset_fits, recording_planned, session_told, stop_planned, EpochRow, Recorder,
    RecordingPlan, SessionManager, StopPlan,
};
use crate::text::{append_decimal, decimal};
use crate::tx::{TxJob, TxState};
use std::sync::Arc;
use vstd::prelude::*;
use vstd::string::*;

verus! {

/// A project with other settings of its serial line.
pub open spec fn with_serial<V>(project: ToolboxProject<V>, serial: SerialConfig) -> ToolboxProject<
    V,
> {
    ToolboxProject { source: SourceProfile { serial, ..project.source }, ..project }
}

/// Why no further source may be connected.
pub open spec fn source_limit_error() -> ErrorData {
    failure(
        ErrorCode::ProductSourceLimit,
        "device.connect"@,
        "single_source_product_limit"@,
    )
}

/// Why the settings of the line may not change now.
pub open spec fn line_frozen_error() -> ErrorData {
    failure(ErrorCode::SessionState, "device.connect"@, "pipeline_frozen_during_session"@)
}

/// Why something cannot be done with a source.
pub open spec fn not_connected_error(operation: Seq<char>, source_id: Uuid) -> ErrorData {
    failure(ErrorCode::DeviceDisconnected, operation, "source_not_connected"@).at(source_id)
}

/// What is shown as the endpoint of a generated source.
pub open spec fn synthetic_endpoint(config: SyntheticConfig) -> Seq<char> {
    "seed:"@ + decimal(config.seed as nat) + " @ "@ + decimal(config.rate_hz as nat) + " Hz"@
}

/// What is known of a source that is about to be connected.
pub open spec fn connecting<V>(
    project: ToolboxProject<V>,
    source_epoch: u64,
    transport: String,
    endpoint: String,
    clock_anchor: ClockAnchor,
) -> SourceSnapshot {
    SourceSnapshot {
        source_id: project.source.id,
        name: project.source.name,
        status: SourceStatus::Connecting,
        transport,
        endpoint,
        source_epoch,
        epoch_id: None,
        clock_anchor: Some(clock_anchor),
        queue_depths: QueueDepths::none_spec(),
        stats: SourceStats::zero(),
    }
}

/// The number of the connection of a source that was opened last.
pub open spec fn epochs_of(counters: Map<Uuid, u64>, source_id: Uuid) -> u64 {
    if counters.dom().contains(source_id) {
        counters[source_id]
    } else {
        0
    }
}

/// What a source shows of itself, as a snapshot states it.
pub open spec fn shown(runtime: SourceRuntime) -> SourceSnapshot {
    SourceSnapshot {
        status: if runtime.stopped {
            SourceStatus::Faulted
        } else {
            SourceStatus::Connected
        },
        queue_depths: QueueDepths {
            recorder_bytes: crate::queue::total(runtime.fanout@.recorder.items) as usize,
            parser_bytes: crate::queue::total(runtime.fanout@.parser.items) as usize,
            terminal_bytes: crate::queue::total(runtime.fanout@.terminal.items) as usize,
            ipc_bytes: crate::queue::total(runtime.ipc@.items) as usize,
            tx_bytes: crate::queue::total(runtime.tx@.queue.items) as usize,
        },
        stats: runtime.fanout@.stats,
        ..runtime.base
    }
}

/// `last` is what is shown of a source that was disconnected: what was known of it,
/// without anything waiting, or next to nothing.
pub open spec fn shows_disconnected(
    known: Option<Arc<SourceSnapshot>>,
    source_id: Uuid,
    last: SourceSnapshot,
) -> bool {
    match known {
        Some(source) => last == (SourceSnapshot {
            status: SourceStatus::Disconnected,
            queue_depths: QueueDepths::none_spec(),
            ..*source
        }),
        None => {
            &&& last.source_id == source_id
            &&& last.name@ == "Source"@
            &&& last.status == SourceStatus::Disconnected
            &&& last.transport@ == "unknown"@
            &&& last.endpoint@ == ""@
            &&& last.source_epoch == 0
            &&& last.epoch_id is None
            &&& last.clock_anchor is None
            &&& last.queue_depths == QueueDepths::none_spec()
            &&& last.stats == SourceStats::zero()
        },
    }
}

/// What an event says of a job that was queued.
pub open spec fn queued_data<V>(job_id: Uuid, base: SourceSnapshot, origin: Seq<char>) -> EventData<
    V,
> {
    seq![
        ("jobId"@, EventDatum::Id(job_id)),
        ("sourceId"@, EventDatum::Id(base.source_id)),
        ("sourceEpoch"@, EventDatum::Unsigned(base.source_epoch)),
        ("origin"@, EventDatum::Text(origin)),
    ]
}

/// What an event says of an attempt to connect again.
pub open spec fn attempt_data<V>(source_id: Uuid, endpoint: Seq<char>) -> EventData<V> {
    seq![("sourceId"@, EventDatum::Id(source_id)), ("endpoint"@, EventDatum::Text(endpoint))]
}

/// What an event says of a connection that was restored.
pub open spec fn reconnected_data<V>(source: SourceSnapshot) -> EventData<V> {
    seq![
        ("sourceId"@, EventDatum::Id(source.source_id)),
        ("sourceEpoch"@, EventDatum::Unsigned(source.source_epoch)),
        ("endpoint"@, EventDatum::Text(source.endpoint@)),
    ]
}

/// What an event says of a session that begins to play.
pub open spec fn replay_data<V>(path: Seq<char>, speed: V) -> EventData<V> {
    seq![("path"@, EventDatum::Text(path)), ("speed"@, EventDatum::Number(speed))]
}

/// Why the recorder could not be stopped.
pub open spec fn drain_timeout_error() -> ErrorData {
    failure(ErrorCode::SessionWrite, "session.stop"@, "recorder_drain_timeout"@)
}

/// Whether the session under way is recorded at a path.
pub open spec fn recording_to(session: SessionManager, path: Seq<char>) -> bool {
    &&& active(session.current.status)
    &&& session.current.path matches Some(own) && own@ == path
}

/// A plan whose next attempt was put off, if it is for this source.
pub open spec fn deferred(
    plan: Option<SerialReconnectPlan>,
    source_id: Uuid,
    now_ns: u64,
) -> Option<SerialReconnectPlan> {
    match plan {
        Some(plan) => if plan.source_id == source_id {
            let later = now_ns + AUTO_RECONNECT_RETRY_NS;
            Some(
                SerialReconnectPlan {
                    next_attempt_ns: if later > u64::MAX {
                        u64::MAX
                    } else {
                        later as u64
                    },
                    ..plan
                },
            )
        } else {
            Some(plan)
        },
        None => None,
    }
}

/// The plan whose time has come, if there is one and no connection stands in its way.
pub open spec fn reconnect_due<V>(core: AppCore<V>, now_ns: u64) -> Option<SerialReconnectPlan> {
    match core.auto_reconnect {
        Some(plan) => {
            let waited = now_ns >= plan.next_attempt_ns;
            let free = if core.sources@.dom().contains(plan.source_id) {
                core.sources@[plan.source_id].stopped
            } else {
                core.sources@ == Map::<Uuid, SourceRuntime>::empty()
            };
            if waited && free {
                Some(plan)
            } else {
                None
            }
        },
        None => None,
    }
}

/// A source that is on its way out.
#[derive(Debug, Clone, Copy, PartialEq, Eq, Structural)]
pub struct Leaving {
    pub source_epoch: u64,
    /// Whether a barrier was put behind what waits for the recorder.
    pub draining: bool,
}

/// What is to be done about a lost connection.
#[derive(Debug)]
pub enum ReconnectStep {
    /// Nothing now.
    Idle,
    /// Wind the lost connection up first, then connect again.
    WindUp(SerialReconnectPlan),
    /// Connect again.
    Attempt(SerialReconnectPlan),
}

/// Everything that the workbench holds.
pub struct AppCore<V> {
    pub store: StateStore<V>,
    pub hub: DataHub,
    pub session: SessionManager,
    pub sources: IdMap<SourceRuntime>,
    pub leaving: Option<SourceRuntime>,
    pub epoch_counters: IdMap<u64>,
    pub auto_reconnect: Option<SerialReconnectPlan>,
    pub replay: ReplayControl,
}

/// Nothing but what is told differs.
pub open spec fn only_told<V>(before: AppCore<V>, after: AppCore<V>) -> bool {
    &&& after.hub == before.hub
    &&& after.session == before.session
    &&& after.sources == before.sources
    &&& after.leaving == before.leaving
    &&& after.epoch_counters == before.epoch_counters
    &&& after.auto_reconnect == before.auto_reconnect
    &&& after.replay == before.replay
}

/// Nothing but the sources, and what is told of them, differs.
pub open spec fn only_sources_changed<V>(before: AppCore<V>, after: AppCore<V>) -> bool {
    &&& after.hub == before.hub
    &&& after.session == before.session
    &&& after.leaving == before.leaving
    &&& after.epoch_counters == before.epoch_counters
    &&& after.auto_reconnect == before.auto_reconnect
    &&& after.replay == before.replay
}

/// Nothing but the sources and the plan to connect again, and what is told of them,
/// differs.
pub open spec fn only_connections_changed<V>(before: AppCore<V>, after: AppCore<V>) -> bool {
    &&& after.hub == before.hub
    &&& after.session == before.session
    &&& after.epoch_counters == before.epoch_counters
    &&& after.replay == before.replay
}

/// A runtime with a barrier behind what waits for its recorder, and nothing more to be
/// recorded.
pub open spec fn drained_by(before: SourceRuntime, ticket: u64, queued: bool, after: SourceRuntime) -> bool {
    &&& after.base == before.base
    &&& after.ipc == before.ipc
    &&& after.stopped == before.stopped
    &&& after.tx == before.tx
    &&& queued == !before.fanout@.recorder.refuses(1, OverflowPolicy::Reject)
    &&& after.fanout@ == if queued {
        (FanoutState {
            accepting: false,
            recorder: before.fanout@.recorder.pushed(
                RecorderItem::Barrier(ticket),
                OverflowPolicy::Reject,
            ),
            ..before.fanout@
        })
    } else {
        (FanoutState { accepting: false, ..before.fanout@ })
    }
}

/// A runtime from which everything is recorded from now on.
pub open spec fn recording_from(before: SourceRuntime, after: SourceRuntime) -> bool {
    &&& after.base == before.base
    &&& after.ipc == before.ipc
    &&& after.stopped == before.stopped
    &&& after.tx == before.tx
    &&& after.fanout@ == (FanoutState { accepting: true, ..before.fanout@ })
}

/// A runtime from which nothing more is recorded.
pub open spec fn not_recording(before: SourceRuntime, after: SourceRuntime) -> bool {
    &&& after.base == before.base
    &&& after.ipc == before.ipc
    &&& after.stopped == before.stopped
    &&& after.tx == before.tx
    &&& after.fanout@ == (FanoutState { accepting: false, ..before.fanout@ })
}

/// A source is taken out of use, or was not in use.
pub open spec fn taken_out<V>(
    before: AppCore<V>,
    source_id: Uuid,
    ticket: u64,
    result: ToolboxResult<Leaving>,
    after: AppCore<V>,
) -> bool {
    &&& after.store@ == before.store@
    &&& only_connections_changed(before, after)
    &&& after.auto_reconnect is None
    &&& match result {
        Ok(leaving) => {
            let runtime = before.sources@[source_id];
            &&& before.sources@.dom().contains(source_id)
            &&& after.sources@ == before.sources@.remove(source_id)
            &&& leaving.source_epoch == runtime.base.source_epoch
            &&& after.leaving matches Some(rest)
            &&& if runtime.stopped {
                !leaving.draining && not_recording(runtime, rest)
            } else {
                drained_by(runtime, ticket, leaving.draining, rest)
            }
        },
        Err(error) => {
            &&& !before.sources@.dom().contains(source_id)
            &&& error@ == not_connected_error("device.disconnect"@, source_id)
            &&& after.sources@ == before.sources@
            &&& after.leaving == before.leaving
        },
    }
}

/// The connection of a source that is on its way out ends: nothing more is taken, and
/// what waits to be sent is cancelled.
pub open spec fn leaving_stopped<V>(before: AppCore<V>, after: AppCore<V>) -> bool {
    &&& after.store == before.store
    &&& after.sources == before.sources
    &&& after.auto_reconnect == before.auto_reconnect
    &&& only_connections_changed(before, after)
    &&& match before.leaving {
        Some(runtime) => {
            &&& after.leaving matches Some(rest)
            &&& rest.stopped
            &&& rest.base == runtime.base
            &&& rest.fanout@ == (FanoutState {
                accepting: false,
                recorder: QueueState { closed: true, ..runtime.fanout@.recorder },
                parser: QueueState { closed: true, ..runtime.fanout@.parser },
                terminal: QueueState { closed: true, ..runtime.fanout@.terminal },
                ..runtime.fanout@
            })
            &&& rest.ipc@ == (QueueState { closed: true, ..runtime.ipc@ })
            &&& rest.tx@ == (TxState {
                stopping: true,
                queue: QueueState { closed: true, ..runtime.tx@.queue },
                ..runtime.tx@
            })
        },
        None => after.leaving is None,
    }
}

impl<V: Copy> AppCore<V> {
    /// The parts are well formed, at most one source is connected, and no connection
    /// has a number that was not given out.
    pub open spec fn wf(&self) -> bool {
        &&& self.store.wf()
        &&& self.sources.wf()
        &&& self.epoch_counters.wf()
        &&& forall|left: Uuid, right: Uuid|
            #![trigger self.sources@.dom().contains(left), self.sources@.dom().contains(right)]
            self.sources@.dom().contains(left) && self.sources@.dom().contains(right) ==> left
                == right
        &&& forall|id: Uuid|
            #![trigger self.sources@.dom().contains(id)]
            self.sources@.dom().contains(id) ==> {
                &&& self.sources@[id].wf()
                &&& self.sources@[id].base.source_id == id
                &&& self.sources@[id].base.source_epoch <= epochs_of(self.epoch_counters@, id)
            }
        &&& self.leaving matches Some(runtime) ==> runtime.wf()
    }

    /// No source is connected.
    pub open spec fn unoccupied(&self) -> bool {
        self.sources@ == Map::<Uuid, SourceRuntime>::empty()
    }

    /// A workbench with a project, to which nothing is connected yet.
    pub fn new(project: Arc<ToolboxProject<V>>) -> (core: AppCore<V>)
        ensures
            core.wf(),
            core.unoccupied(),
            core.store@.untouched(project),
            core.hub.subscribers() == Seq::<u32>::empty(),
            core.session.current.is_initial(),
            core.session.recorder is None,
            core.leaving is None,
            core.epoch_counters@ == Map::<Uuid, u64>::empty(),
            core.auto_reconnect is None,
            core.replay == (ReplayControl { running: false, stop_requested: false, seek_ns: None }),
    {
        AppCore {
            store: StateStore::new(project),
            hub: DataHub::new(),
            session: SessionManager::new(),
            sources: IdMap::new(),
            leaving: None,
            epoch_counters: IdMap::new(),
            auto_reconnect: None,
            replay: ReplayControl::new(),
        }
    }

    /// Brings what is known of the connected source up to date, and gives the whole
    /// state.
    pub fn get_snapshot(&mut self) -> (snapshot: AppSnapshot<V>)
        requires
            old(self).wf(),
        ensures
            final(self).wf(),
            only_told(*old(self), *final(self)),
            if old(self).unoccupied() {
                final(self).store@ == old(self).store@
            } else {
                exists|id: Uuid|
                    {
                        &&& #[trigger] old(self).sources@.dom().contains(id)
                        &&& final(self).store@ == old(self).store@.with_source(
                            Arc::new(shown(old(self).sources@[id])),
                        )
                    }
            },
            shows(snapshot, final(self).store@),
    {
        if !self.sources.is_empty() {
            proof {
                self.sources.lemma_occupied();
            }
            let (id, runtime) = self.sources.entry(0);
            self.store.update_source_silent(Arc::new(runtime.snapshot()));
        }
        self.store.snapshot()
    }

    /// Adds someone who is told of every change, and hands out what they have missed.
    pub fn subscribe_events(&mut self, resume: Option<EventResume>, channel: u32) -> (result: (
        EventSubscription,
        Vec<Arc<AppEvent<V>>>,
    ))
        requires
            old(self).wf(),
        ensures
            final(self).wf(),
            only_told(*old(self), *final(self)),
            final(self).store@ == (StoreState {
                subscribers: old(self).store@.subscribers.push(channel),
                ..old(self).store@
            }),
            result.0.runtime_instance_id == old(self).store@.runtime_instance_id,
            result.0.current_cursor == old(self).store@.cursor,
            result.0.resync_required == (resume matches Some(resume) && resume_needs_snapshot(
                old(self).store@.runtime_instance_id,
                earliest_cursor(old(self).store@),
                resume,
            )),
            result.1@ == backlog(old(self).store@, resume),
    {
        self.store.subscribe(resume, channel)
    }

    /// Adds someone who receives the data streams, and tells how many there are.
    pub fn subscribe_stream(&mut self, channel: u32) -> (count: usize)
        requires
            old(self).wf(),
        ensures
            final(self).wf(),
            final(self).store == old(self).store,
            final(self).session == old(self).session,
            final(self).sources == old(self).sources,
            final(self).leaving == old(self).leaving,
            final(self).epoch_counters == old(self).epoch_counters,
            final(self).auto_reconnect == old(self).auto_reconnect,
            final(self).replay == old(self).replay,
            final(self).hub.subscribers() == old(self).hub.subscribers().push(channel),
            count == final(self).hub.subscribers().len(),
    {
        self.hub.subscribe(channel)
    }

    /// Whether a source may be connected: the product has one at a time.
    pub fn enforce_product_source_limit(&self) -> (result: ToolboxResult<()>)
        requires
            self.wf(),
        ensures
            match result {
                Ok(()) => self.unoccupied(),
                Err(error) => !self.unoccupied() && error@ == source_limit_error(),
            },
    {
        if self.sources.is_empty() {
            Ok(())
        } else {
            Err(
                ToolboxError::new(
                    ErrorCode::ProductSourceLimit,
                    "device.connect",
                    "single_source_product_limit",
                ),
            )
        }
    }

    /// Prepares a connection over a serial line: takes the settings over into the
    /// project, unless a suspended session forbids it.
    pub fn connect_serial(&mut self, config: &SerialConfig) -> (result: ToolboxResult<
        Arc<ToolboxProject<V>>,
    >)
        requires
            old(self).wf(),
        ensures
            final(self).wf(),
            only_told(*old(self), *final(self)),
            match result {
                Ok(project) => {
                    let present = *old(self).store@.project;
                    &&& old(self).unoccupied()
                    &&& old(self).session.current.status == SessionStatus::Suspended
                        ==> same_line_semantics(present.source.serial, *config)
                    &&& *project == with_serial(present, *config)
                    &&& if !active(old(self).session.current.status)
                        || present.source.serial.port_name@ != config.port_name@ {
                        told(
                            old(self).store@.with_project(project),
                            "project.changed"@,
                            EventPayload::Project { project_id: project.id, name: project.name },
                            final(self).store@,
                        )
                    } else {
                        final(self).store@ == old(self).store@
                    }
                },
                Err(error) => {
                    &&& final(self).store@ == old(self).store@
                    &&& if !old(self).unoccupied() {
                        error@ == source_limit_error()
                    } else {
                        &&& old(self).session.current.status == SessionStatus::Suspended
                        &&& !same_line_semantics(
                            old(self).store@.project.source.serial,
                            *config,
                        )
                        &&& error@ == line_frozen_error()
                    }
                },
            },
    {
        match self.enforce_product_source_limit() {
            Ok(()) => {},
            Err(error) => return Err(error),
        }
        let present = self.store.project();
        if self.session.current.status == SessionStatus::Suspended && !serial_semantics_equal(
            &present.source.serial,
            config,
        ) {
            return Err(
                ToolboxError::new(
                    ErrorCode::SessionState,
                    "device.connect",
                    "pipeline_frozen_during_session",
                ),
            );
        }
        let port_changed = present.source.serial.port_name != config.port_name;
        let mut changed = (*present).clone();
        changed.source.serial = config.clone();
        let project = Arc::new(changed);
        if !self.session.is_active() || port_changed {
            self.store.set_project(share(&project));
        }
        Ok(project)
    }

    /// Prepares the connection of a generated source: there is no device to connect to
    /// again.
    pub fn connect_synthetic(&mut self, config: &SyntheticConfig) -> (result: ToolboxResult<
        (Arc<ToolboxProject<V>>, String),
    >)
        requires
            old(self).wf(),
        ensures
            final(self).wf(),
            final(self).store@ == old(self).store@,
            final(self).hub == old(self).hub,
            final(self).session == old(self).session,
            final(self).sources == old(self).sources,
            final(self).leaving == old(self).leaving,
            final(self).epoch_counters == old(self).epoch_counters,
            final(self).replay == old(self).replay,
            match result {
                Ok((project, endpoint)) => {
                    &&& old(self).unoccupied()
                    &&& project == old(self).store@.project
                    &&& endpoint@ == synthetic_endpoint(*config)
                    &&& final(self).auto_reconnect is None
                },
                Err(error) => {
                    &&& !old(self).unoccupied()
                    &&& error@ == source_limit_error()
                    &&& final(self).auto_reconnect == old(self).auto_reconnect
                },
            },
    {
        match self.enforce_product_source_limit() {
            Ok(()) => {},
            Err(error) => return Err(error),
        }
        self.auto_reconnect = None;
        let mut endpoint = "seed:".to_owned();
        append_decimal(&mut endpoint, config.seed);
        endpoint.append(" @ ");
        append_decimal(&mut endpoint, config.rate_hz as u64);
        endpoint.append(" Hz");
        assert(endpoint@ =~= synthetic_endpoint(*config));
        Ok((self.store.project(), endpoint))
    }

    /// Whether a source can be given the number of one more connection.
    pub fn has_epoch_left(&self, source_id: Uuid) -> (left: bool)
        requires
            self.wf(),
        ensures
            left == (epochs_of(self.epoch_counters@, source_id) < u64::MAX),
    {
        match self.epoch_counters.get(source_id) {
            Some(count) => *count < u64::MAX,
            None => true,
        }
    }

    /// Opens a connection of the source of a project, under the next number, and tells
    /// that it is being connected.
    pub fn connect_runtime(
        &mut self,
        project: &ToolboxProject<V>,
        transport: String,
        endpoint: String,
        clock_anchor: ClockAnchor,
    ) -> (runtime: SourceRuntime)
        requires
            old(self).wf(),
            epochs_of(old(self).epoch_counters@, project.source.id) < u64::MAX,
        ensures
            final(self).wf(),
            final(self).hub == old(self).hub,
            final(self).session == old(self).session,
            final(self).sources == old(self).sources,
            final(self).leaving == old(self).leaving,
            final(self).auto_reconnect == old(self).auto_reconnect,
            final(self).replay == old(self).replay,
            opened(
                *project,
                transport,
                endpoint,
                clock_anchor,
                old(self).epoch_counters@,
                old(self).store@,
                runtime,
                final(self).epoch_counters@,
                final(self).store@,
            ),
            runtime.wf(),
            nothing_passed(
                runtime,
                project.source.id,
                (epochs_of(old(self).epoch_counters@, project.source.id) + 1) as u64,
            ),
    {
        let source_id = project.source.id;
        let last: u64 = match self.epoch_counters.get(source_id) {
            Some(count) => *count,
            None => 0,
        };
        let source_epoch = last + 1;
        self.epoch_counters.insert(source_id, source_epoch);
        let snapshot = SourceSnapshot {
            source_id,
            name: project.source.name.clone(),
            status: SourceStatus::Connecting,
            transport: transport.clone(),
            endpoint: endpoint.clone(),
            source_epoch,
            epoch_id: None,
            clock_anchor: Some(clock_anchor.clone()),
            queue_depths: QueueDepths::none(),
            stats: SourceStats::default(),
        };
        self.store.set_source(Arc::new(snapshot), "source.connecting");
        SourceRuntime::start(project, source_epoch, transport, endpoint, clock_anchor)
    }

    /// A connection is open: it is told and registered.
    pub fn connected(&mut self, runtime: SourceRuntime) -> (snapshot: SourceSnapshot)
        requires
            old(self).wf(),
            old(self).unoccupied(),
            runtime.wf(),
            runtime.base.source_epoch <= epochs_of(
                old(self).epoch_counters@,
                runtime.base.source_id,
            ),
        ensures
            final(self).wf(),
            only_sources_changed(*old(self), *final(self)),
            snapshot == shown(runtime),
            source_told(old(self).store@, snapshot, "source.connected"@, final(self).store@),
            final(self).sources@ == old(self).sources@.insert(runtime.base.source_id, runtime),
    {
        let snapshot = runtime.snapshot();
        self.store.set_source(Arc::new(snapshot.clone()), "source.connected");
        let id = runtime.base.source_id;
        self.sources.insert(id, runtime);
        assert(forall|other: Uuid| #[trigger]
            self.sources@.dom().contains(other) ==> other == id);
        snapshot
    }

    /// Remembers how to connect to a device again.
    pub fn remember_serial_reconnect(
        &mut self,
        source_id: Uuid,
        config: SerialConfig,
        ports: &Vec<SerialPortDescriptor>,
        now_ns: u64,
    )
        requires
            old(self).wf(),
        ensures
            final(self).wf(),
            final(self).store == old(self).store,
            final(self).sources == old(self).sources,
            final(self).leaving == old(self).leaving,
            only_connections_changed(*old(self), *final(self)),
            final(self).auto_reconnect == Some(
                SerialReconnectPlan {
                    source_id,
                    config,
                    device: match first_named(ports@, config.port_name@) {
                        Some(i) => Some(ports@[i]),
                        None => None,
                    },
                    next_attempt_ns: now_ns,
                },
            ),
    {
        let device = match find_named(ports, &config.port_name) {
            Some(i) => Some(ports[i].clone()),
            None => None,
        };
        self.auto_reconnect =
        Some(SerialReconnectPlan { source_id, config, device, next_attempt_ns: now_ns });
    }

    /// Takes a source out of use at the user's request. Nothing more of it is recorded,
    /// and if its connection still stands, a barrier goes behind what waits for the
    /// recorder.
    pub fn disconnect(&mut self, source_id: Uuid, ticket: u64) -> (result: ToolboxResult<Leaving>)
        requires
            old(self).wf(),
        ensures
            final(self).wf(),
            taken_out(*old(self), source_id, ticket, result, *final(self)),
    {
        self.auto_reconnect = None;
        match self.sources.remove(source_id) {
            Some(runtime) => {
                let mut runtime = runtime;
                let source_epoch = runtime.base.source_epoch;
                runtime.set_recording(false);
                let mut draining = false;
                if !runtime.is_stopped() {
                    draining = runtime.fanout.push_barrier(ticket);
                }
                self.leaving = Some(runtime);
                Ok(Leaving { source_epoch, draining })
            },
            None => {
                assert(old(self).sources@.remove(source_id) =~= old(self).sources@);
                Err(
                    ToolboxError::new(
                        ErrorCode::DeviceDisconnected,
                        "device.disconnect",
                        "source_not_connected",
                    ).source(source_id),
                )
            },
        }
    }

    /// Ends the connection of the source that is on its way out.
    pub fn stop_leaving(&mut self)
        requires
            old(self).wf(),
        ensures
            final(self).wf(),
            leaving_stopped(*old(self), *final(self)),
    {
        if let Some(runtime) = self.leaving.take() {
            let mut runtime = runtime;
            runtime.stop();
            self.leaving = Some(runtime);
        }
    }

    /// Forgets the source that was on its way out.
    pub fn left(&mut self)
        requires
            old(self).wf(),
        ensures
            final(self).wf(),
            final(self).store == old(self).store,
            final(self).sources == old(self).sources,
            final(self).auto_reconnect == old(self).auto_reconnect,
            only_connections_changed(*old(self), *final(self)),
            final(self).leaving is None,
    {
        self.leaving = None;
    }

    /// Tells that a source is disconnected.
    pub fn disconnected(&mut self, source_id: Uuid) -> (last: SourceSnapshot)
        requires
            old(self).wf(),
        ensures
            final(self).wf(),
            only_told(*old(self), *final(self)),
            shows_disconnected(
                if old(self).store@.sources.dom().contains(source_id) {
                    Some(old(self).store@.sources[source_id])
                } else {
                    None
                },
                source_id,
                last,
            ),
            source_told(old(self).store@, last, "source.disconnected"@, final(self).store@),
    {
        let mut last = match self.store.source(source_id) {
            Some(source) => (*source).clone(),
            None => SourceSnapshot {
                source_id,
                name: "Source".to_owned(),
                status: SourceStatus::Disconnected,
                transport: "unknown".to_owned(),
                endpoint: "".to_owned(),
                source_epoch: 0,
                epoch_id: None,
                clock_anchor: None,
                queue_depths: QueueDepths::none(),
                stats: SourceStats::default(),
            },
        };
        last.status = SourceStatus::Disconnected;
        last.queue_depths = QueueDepths::none();
        self.store.set_source(Arc::new(last.clone()), "source.disconnected");
        last
    }

    /// Hands a request to the source that it is for, and tells that it was queued.
    pub fn send(&mut self, request: TxRequest) -> (result: ToolboxResult<TxAccepted>)
        requires
            old(self).wf(),
        ensures
            final(self).wf(),
            only_sources_changed(*old(self), *final(self)),
            match result {
                Ok(accepted) => {
                    let id = request.source_id;
                    let job = TxJob { id: accepted.job_id, request };
                    let before = old(self).sources@[id];
                    let after = final(self).sources@[id];
                    &&& old(self).sources@.dom().contains(id)
                    &&& !before.tx@.queue.refuses(job.size(), OverflowPolicy::Reject)
                    &&& version_bits(accepted.job_id.value) == 7
                    &&& variant_bits(accepted.job_id.value) == 2
                    &&& final(self).sources@ == old(self).sources@.insert(id, after)
                    &&& after.base == before.base
                    &&& after.fanout == before.fanout
                    &&& after.ipc == before.ipc
                    &&& after.stopped == before.stopped
                    &&& after.tx@ == (TxState {
                        queue: QueueState {
                            items: before.tx@.queue.items.push(job),
                            ..before.tx@.queue
                        },
                        ..before.tx@
                    })
                    &&& told_fields(
                        old(self).store@,
                        "tx.queued"@,
                        queued_data(accepted.job_id, before.base, request.origin@),
                        final(self).store@,
                    )
                },
                Err(error) => {
                    let id = request.source_id;
                    &&& final(self).store@ == old(self).store@
                    &&& if !old(self).sources@.dom().contains(id) {
                        &&& error@ == not_connected_error("tx.enqueue"@, id)
                        &&& final(self).sources@ == old(self).sources@
                    } else {
                        let before = old(self).sources@[id];
                        let after = final(self).sources@[id];
                        &&& before.tx@.queue.refuses(
                            (TxJob { id: Uuid { value: 0 }, request }).size(),
                            OverflowPolicy::Reject,
                        )
                        &&& error@ == failure(
                            ErrorCode::TxQueueFull,
                            "tx.enqueue"@,
                            "tx_queue_full"@,
                        ).at(id)
                        &&& final(self).sources@ == old(self).sources@.insert(id, after)
                        &&& after.base == before.base
                        &&& after.fanout == before.fanout
                        &&& after.ipc == before.ipc
                        &&& after.stopped == before.stopped
                        &&& after.tx@ == before.tx@
                    }
                },
            },
    {
        let id = request.source_id;
        let origin = request.origin.clone();
        match self.sources.get_mut(id) {
            Some(runtime) => {
                let base_id = runtime.base.source_id;
                let base_epoch = runtime.base.source_epoch;
                match runtime.tx.enqueue(request) {
                    Ok(accepted) => {
                        let fields = EventFields::new().with(
                            "jobId",
                            EventValue::Id(accepted.job_id),
                        ).with("sourceId", EventValue::Id(base_id)).with(
                            "sourceEpoch",
                            EventValue::Unsigned(base_epoch),
                        ).with("origin", EventValue::Text(origin));
                        assert(fields@ =~= queued_data(
                            accepted.job_id,
                            old(self).sources@[id].base,
                            request.origin@,
                        ));
                        self.store.emit_fields("tx.queued", fields);
                        Ok(accepted)
                    },
                    Err(error) => Err(error),
                }
            },
            None => Err(
                ToolboxError::new(
                    ErrorCode::DeviceDisconnected,
                    "tx.enqueue",
                    "source_not_connected",
                ).source(id),
            ),
        }
    }

    /// Marks a job of a source to be dropped if it is still waiting.
    pub fn cancel_tx(&mut self, source_id: Uuid, job_id: Uuid) -> (result: ToolboxResult<()>)
        requires
            old(self).wf(),
        ensures
            final(self).wf(),
            final(self).store == old(self).store,
            only_sources_changed(*old(self), *final(self)),
            match result {
                Ok(()) => {
                    let before = old(self).sources@[source_id];
                    let after = final(self).sources@[source_id];
                    &&& old(self).sources@.dom().contains(source_id)
                    &&& final(self).sources@ == old(self).sources@.insert(source_id, after)
                    &&& after.base == before.base
                    &&& after.fanout == before.fanout
                    &&& after.ipc == before.ipc
                    &&& after.stopped == before.stopped
                    &&& after.tx@ == (TxState {
                        cancelled: before.tx@.cancelled.insert(job_id),
                        ..before.tx@
                    })
                },
                Err(error) => {
                    &&& !old(self).sources@.dom().contains(source_id)
                    &&& error@ == not_connected_error("tx.cancel"@, source_id)
                    &&& final(self).sources@ == old(self).sources@
                },
            },
    {
        match self.sources.get_mut(source_id) {
            Some(runtime) => {
                runtime.tx.cancel(job_id);
                Ok(())
            },
            None => Err(
                ToolboxError::new(
                    ErrorCode::DeviceDisconnected,
                    "tx.cancel",
                    "source_not_connected",
                ).source(source_id),
            ),
        }
    }

    /// The source that a session would record.
    pub fn session_source(&self) -> (result: ToolboxResult<SourceSnapshot>)
        requires
            self.wf(),
        ensures
            match result {
                Ok(source) => exists|id: Uuid|
                    {
                        &&& #[trigger] self.sources@.dom().contains(id)
                        &&& source == shown(self.sources@[id])
                    },
                Err(error) => {
                    &&& self.unoccupied()
                    &&& error@ == failure(
                        ErrorCode::SessionState,
                        "session.start"@,
                        "source_not_connected"@,
                    )
                },
            },
    {
        if self.sources.is_empty() {
            return Err(
                ToolboxError::new(
                    ErrorCode::SessionState,
                    "session.start",
                    "source_not_connected",
                ),
            );
        }
        proof {
            self.sources.lemma_occupied();
        }
        let (id, runtime) = self.sources.entry(0);
        Ok(runtime.snapshot())
    }

    /// What is to be written when a recording of the connected source starts at a path.
    pub fn start_session(
        &self,
        path: String,
        path_exists: bool,
        started_utc_ns: i64,
        session_anchor_monotonic_ns: i64,
    ) -> (result: ToolboxResult<RecordingPlan>)
        requires
            self.wf(),
            forall|id: Uuid| #[trigger]
                self.sources@.dom().contains(id) ==> offset_fits(
                    self.sources@[id].base,
                    session_anchor_monotonic_ns,
                ),
        ensures
            if self.unoccupied() {
                result matches Err(error) && error@ == failure(
                    ErrorCode::SessionState,
                    "session.start"@,
                    "source_not_connected"@,
                )
            } else {
                exists|id: Uuid|
                    {
                        &&& #[trigger] self.sources@.dom().contains(id)
                        &&& recording_planned(
                            self.session.current.status,
                            *self.store@.project,
                            shown(self.sources@[id]),
                            self.store@.runtime_instance_id,
                            path,
                            path_exists,
                            started_utc_ns,
                            session_anchor_monotonic_ns,
                            result,
                        )
                    }
            },
    {
        match self.session_source() {
            Ok(source) => self.session.start(
                path,
                path_exists,
                &self.store.project(),
                &source,
                self.store.runtime_instance_id(),
                started_utc_ns,
                session_anchor_monotonic_ns,
            ),
            Err(error) => Err(error),
        }
    }

    /// The rows of a plan were written: recording is under way.
    pub fn session_started(&mut self, recorder: Recorder, epoch: EpochRow) -> (snapshot:
        SessionSnapshot)
        requires
            old(self).wf(),
        ensures
            final(self).wf(),
            final(self).hub == old(self).hub,
            final(self).leaving == old(self).leaving,
            final(self).epoch_counters == old(self).epoch_counters,
            final(self).auto_reconnect == old(self).auto_reconnect,
            final(self).replay == old(self).replay,
            final(self).session.recorder == Some(
                Recorder { current_epoch_id: Some(epoch.identity.epoch_id), ..recorder },
            ),
            snapshot == (SessionSnapshot {
                status: SessionStatus::Recording,
                session_id: Some(recorder.session_id),
                path: Some(recorder.path),
                epoch_ordinal: Some(recorder.epoch_ordinal),
                bytes_written: 0,
                checkpoint_pending: false,
                message: None,
            }),
            final(self).session.current == snapshot,
            session_told(old(self).store@, snapshot, "session.started"@, final(self).store@),
            final(self).sources@.dom() == old(self).sources@.dom(),
            forall|id: Uuid| #[trigger]
                old(self).sources@.dom().contains(id) ==> recording_from(
                    old(self).sources@[id],
                    final(self).sources@[id],
                ),
    {
        let snapshot = self.session.started(recorder, epoch, &mut self.store);
        self.record_source();
        snapshot
    }

    /// The recording ends: which rows end it.
    pub fn stop_session(&mut self) -> (result: ToolboxResult<StopPlan>)
        requires
            old(self).wf(),
        ensures
            final(self).wf(),
            final(self).hub == old(self).hub,
            final(self).sources == old(self).sources,
            final(self).leaving == old(self).leaving,
            final(self).epoch_counters == old(self).epoch_counters,
            final(self).auto_reconnect == old(self).auto_reconnect,
            final(self).replay == old(self).replay,
            stop_planned(
                old(self).session,
                old(self).store@,
                result,
                final(self).session,
                final(self).store@,
            ),
    {
        self.session.stop(&mut self.store)
    }

    /// Records what the connected source carries from now on.
    pub fn record_source(&mut self)
        requires
            old(self).wf(),
        ensures
            final(self).wf(),
            final(self).store == old(self).store,
            only_sources_changed(*old(self), *final(self)),
            final(self).sources@.dom() == old(self).sources@.dom(),
            forall|id: Uuid| #[trigger]
                old(self).sources@.dom().contains(id) ==> recording_from(
                    old(self).sources@[id],
                    final(self).sources@[id],
                ),
    {
        if self.sources.is_empty() {
            return;
        }
        proof {
            self.sources.lemma_occupied();
        }
        let (id, _) = self.sources.entry(0);
        if let Some(runtime) = self.sources.get_mut(id) {
            runtime.set_recording(true);
        }
        assert(self.sources@.dom() =~= old(self).sources@.dom());
    }

    /// Stops recording what the connected source carries, and puts a barrier behind what
    /// waits for the recorder. Tells whether there is a barrier to wait for.
    pub fn drain_recorder(&mut self, ticket: u64) -> (result: ToolboxResult<bool>)
        requires
            old(self).wf(),
        ensures
            final(self).wf(),
            final(self).store == old(self).store,
            only_sources_changed(*old(self), *final(self)),
            final(self).sources@.dom() == old(self).sources@.dom(),
            match result {
                Ok(waiting) => {
                    &&& waiting == !old(self).unoccupied()
                    &&& forall|id: Uuid| #[trigger]
                        old(self).sources@.dom().contains(id) ==> drained_by(
                            old(self).sources@[id],
                            ticket,
                            true,
                            final(self).sources@[id],
                        )
                },
                Err(error) => {
                    &&& !old(self).unoccupied()
                    &&& error@ == drain_timeout_error()
                    &&& forall|id: Uuid| #[trigger]
                        old(self).sources@.dom().contains(id) ==> drained_by(
                            old(self).sources@[id],
                            ticket,
                            false,
                            final(self).sources@[id],
                        )
                },
            },
    {
        if self.sources.is_empty() {
            return Ok(false);
        }
        proof {
            self.sources.lemma_occupied();
        }
        let (id, _) = self.sources.entry(0);
        let mut queued = false;
        if let Some(runtime) = self.sources.get_mut(id) {
            runtime.set_recording(false);
            queued = runtime.fanout.push_barrier(ticket);
        }
        assert(self.sources@.dom() =~= old(self).sources@.dom());
        match self.drained(queued) {
            Ok(()) => Ok(true),
            Err(error) => Err(error),
        }
    }

    /// What is said of a recorder that should have been drained.
    pub fn drained(&self, in_time: bool) -> (result: ToolboxResult<()>)
        ensures
            match result {
                Ok(()) => in_time,
                Err(error) => !in_time && error@ == drain_timeout_error(),
            },
    {
        if in_time {
            Ok(())
        } else {
            Err(
                ToolboxError::new(
                    ErrorCode::SessionWrite,
                    "session.stop",
                    "recorder_drain_timeout",
                ),
            )
        }
    }

    /// Replaces the project, unless a session is under way or the project is invalid.
    pub fn set_project(&mut self, project: Arc<ToolboxProject<V>>) -> (result: ToolboxResult<()>)
        requires
            old(self).wf(),
        ensures
            final(self).wf(),
            only_told(*old(self), *final(self)),
            match result {
                Ok(()) => {
                    &&& !active(old(self).session.current.status)
                    &&& valid_project(*project)
                    &&& told(
                        old(self).store@.with_project(project),
                        "project.changed"@,
                        EventPayload::Project { project_id: project.id, name: project.name },
                        final(self).store@,
                    )
                },
                Err(error) => {
                    &&& final(self).store@ == old(self).store@
                    &&& if active(old(self).session.current.status) {
                        error@ == failure(
                            ErrorCode::SessionState,
                            "project.set"@,
                            "project_frozen_during_session"@,
                        )
                    } else {
                        !valid_project(*project) && project_defect(*project, error@)
                    }
                },
            },
    {
        if self.session.is_active() {
            return Err(
                ToolboxError::new(
                    ErrorCode::SessionState,
                    "project.set",
                    "project_frozen_during_session",
                ),
            );
        }
        match validate_project(&project) {
            Ok(()) => {
                self.store.set_project(project);
                Ok(())
            },
            Err(error) => Err(error),
        }
    }

    /// What is to be done now about a lost connection: nothing, as long as there is no
    /// plan, its time has not come, or a connection stands.
    pub fn try_auto_reconnect(&mut self, now_ns: u64) -> (step: ReconnectStep)
        requires
            old(self).wf(),
        ensures
            final(self).wf(),
            final(self).store@ == old(self).store@,
            final(self).auto_reconnect == old(self).auto_reconnect,
            only_connections_changed(*old(self), *final(self)),
            match reconnect_due(*old(self), now_ns) {
                Some(plan) => if old(self).sources@.dom().contains(plan.source_id) {
                    &&& step == ReconnectStep::WindUp(plan)
                    &&& final(self).sources@ == old(self).sources@.remove(plan.source_id)
                    &&& final(self).leaving == Some(old(self).sources@[plan.source_id])
                } else {
                    &&& step == ReconnectStep::Attempt(plan)
                    &&& final(self).sources@ == old(self).sources@
                    &&& final(self).leaving == old(self).leaving
                },
                None => {
                    &&& step is Idle
                    &&& final(self).sources@ == old(self).sources@
                    &&& final(self).leaving == old(self).leaving
                },
            },
    {
        let plan = match &self.auto_reconnect {
            Some(plan) => plan.clone(),
            None => return ReconnectStep::Idle,
        };
        if now_ns < plan.next_attempt_ns {
            return ReconnectStep::Idle;
        }
        let standing = match self.sources.get(plan.source_id) {
            Some(runtime) => Some(!runtime.is_stopped()),
            None => None,
        };
        match standing {
            Some(true) => ReconnectStep::Idle,
            Some(false) => {
                self.leaving = self.sources.remove(plan.source_id);
                ReconnectStep::WindUp(plan)
            },
            None => if self.sources.is_empty() {
                ReconnectStep::Attempt(plan)
            } else {
                ReconnectStep::Idle
            },
        }
    }

    /// Tells that a lost connection was wound up and is waited for.
    pub fn await_reconnect(&mut self, plan: &SerialReconnectPlan)
        requires
            old(self).wf(),
        ensures
            final(self).wf(),
            only_told(*old(self), *final(self)),
            told_fields(
                old(self).store@,
                "source.reconnectWaiting"@,
                attempt_data(plan.source_id, plan.config.port_name@),
                final(self).store@,
            ),
    {
        let fields = EventFields::new().with("sourceId", EventValue::Id(plan.source_id)).with(
            "endpoint",
            EventValue::Text(plan.config.port_name.clone()),
        );
        assert(fields@ =~= attempt_data(plan.source_id, plan.config.port_name@));
        self.store.emit_fields("source.reconnectWaiting", fields);
    }

    /// Looks for the device among the ports. If it is there, an attempt is told; else
    /// the next one is deferred.
    pub fn find_device(
        &mut self,
        plan: &SerialReconnectPlan,
        ports: &Vec<SerialPortDescriptor>,
        now_ns: u64,
    ) -> (found: Option<SerialConfig>)
        requires
            old(self).wf(),
        ensures
            final(self).wf(),
            final(self).sources == old(self).sources,
            final(self).leaving == old(self).leaving,
            only_connections_changed(*old(self), *final(self)),
            match reconnect_port(*plan, ports@) {
                Some(i) => {
                    let config = SerialConfig { port_name: ports@[i].name, ..plan.config };
                    &&& found == Some(config)
                    &&& final(self).auto_reconnect == old(self).auto_reconnect
                    &&& told_fields(
                        old(self).store@,
                        "source.reconnectAttempt"@,
                        attempt_data(plan.source_id, config.port_name@),
                        final(self).store@,
                    )
                },
                None => {
                    &&& found is None
                    &&& final(self).store@ == old(self).store@
                    &&& final(self).auto_reconnect == deferred(
                        old(self).auto_reconnect,
                        plan.source_id,
                        now_ns,
                    )
                },
            },
    {
        match select_reconnect_config_from_ports(plan, ports) {
            Some(config) => {
                let fields = EventFields::new().with(
                    "sourceId",
                    EventValue::Id(plan.source_id),
                ).with("endpoint", EventValue::Text(config.port_name.clone()));
                assert(fields@ =~= attempt_data(plan.source_id, config.port_name@));
                self.store.emit_fields("source.reconnectAttempt", fields);
                Some(config)
            },
            None => {
                self.defer_auto_reconnect(plan.source_id, now_ns);
                None
            },
        }
    }

    /// Tells that a connection was restored.
    pub fn reconnected(&mut self, source: &SourceSnapshot)
        requires
            old(self).wf(),
        ensures
            final(self).wf(),
            only_told(*old(self), *final(self)),
            told_fields(
                old(self).store@,
                "source.reconnected"@,
                reconnected_data(*source),
                final(self).store@,
            ),
    {
        let fields = EventFields::new().with("sourceId", EventValue::Id(source.source_id)).with(
            "sourceEpoch",
            EventValue::Unsigned(source.source_epoch),
        ).with("endpoint", EventValue::Text(source.endpoint.clone()));
        assert(fields@ =~= reconnected_data(*source));
        self.store.emit_fields("source.reconnected", fields);
    }

    /// Puts the next attempt to connect again off, if it is for this source.
    pub fn defer_auto_reconnect(&mut self, source_id: Uuid, now_ns: u64)
        requires
            old(self).wf(),
        ensures
            final(self).wf(),
            final(self).store == old(self).store,
            final(self).sources == old(self).sources,
            final(self).leaving == old(self).leaving,
            only_connections_changed(*old(self), *final(self)),
            final(self).auto_reconnect == deferred(
                old(self).auto_reconnect,
                source_id,
                now_ns,
            ),
    {
        if let Some(plan) = self.auto_reconnect.take() {
            let mut plan = plan;
            if plan.source_id == source_id {
                plan.next_attempt_ns = now_ns.saturating_add(AUTO_RECONNECT_RETRY_NS);
            }
            self.auto_reconnect = Some(plan);
        }
    }

    /// Whether a recording may be played: not while it is written.
    pub fn admit_replay(&self, path: &String) -> (result: ToolboxResult<()>)
        ensures
            match result {
                Ok(()) => !recording_to(self.session, path@),
                Err(error) => {
                    &&& recording_to(self.session, path@)
                    &&& error@ == failure(
                        ErrorCode::ReplayActiveSession,
                        "replay.start"@,
                        "active_session_replay_forbidden"@,
                    )
                },
            },
    {
        if self.session.is_recording_to(path) {
            Err(
                ToolboxError::new(
                    ErrorCode::ReplayActiveSession,
                    "replay.start",
                    "active_session_replay_forbidden",
                ),
            )
        } else {
            Ok(())
        }
    }

    /// Begins to play a recording, unless one is being played.
    pub fn start_replay(&mut self) -> (result: ToolboxResult<()>)
        requires
            old(self).wf(),
        ensures
            final(self).wf(),
            final(self).store == old(self).store,
            final(self).hub == old(self).hub,
            final(self).session == old(self).session,
            final(self).sources == old(self).sources,
            final(self).leaving == old(self).leaving,
            final(self).epoch_counters == old(self).epoch_counters,
            final(self).auto_reconnect == old(self).auto_reconnect,
            match result {
                Ok(()) => !old(self).replay.running && final(self).replay == (ReplayControl {
                    running: true,
                    stop_requested: false,
                    seek_ns: None,
                }),
                Err(error) => {
                    &&& old(self).replay.running
                    &&& final(self).replay == old(self).replay
                    &&& error@ == failure(
                        ErrorCode::ReplayFailed,
                        "replay.start"@,
                        "replay_already_running"@,
                    )
                },
            },
    {
        self.replay.begin()
    }

    /// Asks what is being played to stop.
    pub fn stop_replay(&mut self)
        requires
            old(self).wf(),
        ensures
            final(self).wf(),
            final(self).store == old(self).store,
            final(self).hub == old(self).hub,
            final(self).session == old(self).session,
            final(self).sources == old(self).sources,
            final(self).leaving == old(self).leaving,
            final(self).epoch_counters == old(self).epoch_counters,
            final(self).auto_reconnect == old(self).auto_reconnect,
            final(self).replay == (ReplayControl { stop_requested: true, ..old(self).replay }),
    {
        self.replay.stop_replay();
    }

    /// Asks what is being played to go on from a time of the session.
    pub fn seek_replay(&mut self, session_offset_ns: i64) -> (result: ToolboxResult<()>)
        requires
            old(self).wf(),
        ensures
            final(self).wf(),
            final(self).hub == old(self).hub,
            final(self).session == old(self).session,
            final(self).sources == old(self).sources,
            final(self).leaving == old(self).leaving,
            final(self).epoch_counters == old(self).epoch_counters,
            final(self).auto_reconnect == old(self).auto_reconnect,
            seek_requested(
                session_offset_ns,
                old(self).replay,
                old(self).store@,
                result,
                final(self).replay,
                final(self).store@,
            ),
    {
        self.replay.seek_replay(session_offset_ns, &mut self.store)
    }

    /// Tells that a recording is being played, and how fast.
    pub fn replay_started(&mut self, path: &String, speed: V)
        requires
            old(self).wf(),
        ensures
            final(self).wf(),
            only_told(*old(self), *final(self)),
            told_fields(
                old(self).store@,
                "replay.started"@,
                replay_data(path@, speed),
                final(self).store@,
            ),
    {
        let fields = EventFields::new().with("path", EventValue::Text(path.clone())).with(
            "speed",
            EventValue::Number(speed),
        );
        assert(fields@ =~= replay_data(path@, speed));
        self.store.emit_fields("replay.started", fields);
    }
}

/// A connection was opened under the next number, and it is told that it is being
/// connected.
pub open spec fn opened<V>(
    project: ToolboxProject<V>,
    transport: String,
    endpoint: String,
    clock_anchor: ClockAnchor,
    counters: Map<Uuid, u64>,
    store: StoreState<V>,
    runtime: SourceRuntime,
    counters_after: Map<Uuid, u64>,
    store_after: StoreState<V>,
) -> bool {
    let id = project.source.id;
    let source_epoch = (epochs_of(counters, id) + 1) as u64;
    &&& counters_after == counters.insert(id, source_epoch)
    &&& just_connected(runtime.base, project, source_epoch, transport, endpoint, clock_anchor)
    &&& source_told(
        store,
        connecting(project, source_epoch, transport, endpoint, clock_anchor),
        "source.connecting"@,
        store_after,
    )
}

/// No number of a connection that was given out is taken back.
pub open spec fn epochs_kept(before: Map<Uuid, u64>, after: Map<Uuid, u64>) -> bool {
    forall|id: Uuid| #[trigger] epochs_of(before, id) <= epochs_of(after, id)
}

/// Opening a connection takes no number back.
pub proof fn law_opening_keeps_the_numbers<V>(
    project: ToolboxProject<V>,
    transport: String,
    endpoint: String,
    clock_anchor: ClockAnchor,
    counters: Map<Uuid, u64>,
    store: StoreState<V>,
    runtime: SourceRuntime,
    counters_after: Map<Uuid, u64>,
    store_after: StoreState<V>,
)
    requires
        epochs_of(counters, project.source.id) < u64::MAX,
        opened(
            project,
            transport,
            endpoint,
            clock_anchor,
            counters,
            store,
            runtime,
            counters_after,
            store_after,
        ),
    ensures
        epochs_kept(counters, counters_after),
        runtime.base.source_epoch == epochs_of(counters_after, project.source.id),
{
}

/// Two connections of the same source never have the same number: the later one has
/// the larger.
pub proof fn law_later_connections_have_larger_numbers<V>(
    first_project: ToolboxProject<V>,
    second_project: ToolboxProject<V>,
    transport: (String, String),
    endpoint: (String, String),
    clock_anchor: (ClockAnchor, ClockAnchor),
    counters: (Map<Uuid, u64>, Map<Uuid, u64>, Map<Uuid, u64>, Map<Uuid, u64>),
    store: (StoreState<V>, StoreState<V>, StoreState<V>, StoreState<V>),
    first: SourceRuntime,
    second: SourceRuntime,
)
    requires
        first_project.source.id == second_project.source.id,
        epochs_of(counters.0, first_project.source.id) < u64::MAX,
        epochs_of(counters.2, second_project.source.id) < u64::MAX,
        opened(
            first_project,
            transport.0,
            endpoint.0,
            clock_anchor.0,
            counters.0,
            store.0,
            first,
            counters.1,
            store.1,
        ),
        epochs_kept(counters.1, counters.2),
        opened(
            second_project,
            transport.1,
            endpoint.1,
            clock_anchor.1,
            counters.2,
            store.2,
            second,
            counters.3,
            store.3,
        ),
    ensures
        first.base.source_epoch < second.base.source_epoch,
{
    assert(epochs_of(counters.1, first_project.source.id) <= epochs_of(
        counters.2,
        first_project.source.id,
    ));
}

/// A connection that stands is never replaced behind the user's back: as long as the
/// source of the plan works, or another one is connected, nothing is attempted.
pub proof fn law_a_working_connection_is_left_alone<V>(core: AppCore<V>, id: Uuid, now_ns: u64)
    requires
        core.sources@.dom().contains(id),
        !core.sources@[id].stopped,
        forall|other: Uuid| #[trigger]
            core.sources@.dom().contains(other) ==> other == id,
    ensures
        reconnect_due(core, now_ns) is None,
{
    assert(!Map::<Uuid, SourceRuntime>::empty().dom().contains(id));
}

/// A source is connected under the number that follows that of its latest connection, the
/// first time under one; other sources keep theirs. It shows what it was connected with, and no
/// other can be connected then.
pub proof fn law_a_source_is_connected_under_the_next_number<V: Copy>(
    opening: &mut AppCore<V>,
    core: &mut AppCore<V>,
    project: &ToolboxProject<V>,
    transport: String,
    endpoint: String,
    clock_anchor: ClockAnchor,
    runtime: SourceRuntime,
    snapshot: SourceSnapshot,
    after: &AppCore<V>,
    another: ToolboxResult<()>,
    other: Uuid,
)
    requires
        old(opening).wf(),
        epochs_of(old(opening).epoch_counters@, project.source.id) < u64::MAX,
        call_ensures(
            AppCore::<V>::connect_runtime,
            (opening, project, transport, endpoint, clock_anchor),
            runtime,
        ),
        *old(core) == *final(opening),
        !runtime.stopped,
        call_ensures(AppCore::<V>::connected, (core, runtime), snapshot),
        *after == *final(core),
        call_ensures(AppCore::<V>::enforce_product_source_limit, (after,), another),
        other != project.source.id,
    ensures
        !old(opening).epoch_counters@.dom().contains(project.source.id) ==> snapshot.source_epoch
            == 1,
        old(opening).epoch_counters@.dom().contains(project.source.id) ==> snapshot.source_epoch
            == old(opening).epoch_counters@[project.source.id] + 1,
        after.epoch_counters@.dom().contains(project.source.id),
        after.epoch_counters@[project.source.id] == snapshot.source_epoch,
        after.epoch_counters@.dom().contains(other)
            == old(opening).epoch_counters@.dom().contains(other),
        after.epoch_counters@.dom().contains(other) ==> after.epoch_counters@[other]
            == old(opening).epoch_counters@[other],
        snapshot.source_id == project.source.id,
        snapshot.name == project.source.name,
        snapshot.status == SourceStatus::Connected,
        snapshot.transport == transport,
        snapshot.endpoint == endpoint,
        snapshot.clock_anchor == Some(clock_anchor),
        snapshot.epoch_id is Some,
        after.sources@.dom().contains(project.source.id),
        after.sources@[project.source.id] == runtime,
        after.store@.sources.dom().contains(project.source.id),
        after.store@.sources[project.source.id] == Arc::new(snapshot),
        old(core).store@.recent.last().event_type@ == "source.connecting"@,
        old(core).store@.sources[project.source.id].status == SourceStatus::Connecting,
        old(core).store@.sources[project.source.id].source_epoch == snapshot.source_epoch,
        after.store@.recent.last().event_type@ == "source.connected"@,
        after.session == old(opening).session,
        another is Err,
{
    assert(after.sources@.dom().contains(project.source.id));
    assert(!Map::<Uuid, SourceRuntime>::empty().dom().contains(project.source.id));
}

/// A snapshot of a source shows how many bytes wait at each consumer, and whether the
/// connection stands.
pub proof fn law_a_snapshot_shows_what_waits(runtime: &SourceRuntime, snapshot: SourceSnapshot)
    requires
        runtime.wf(),
        call_ensures(SourceRuntime::snapshot, (runtime,), snapshot),
    ensures
        snapshot.status == SourceStatus::Faulted <==> runtime.stopped,
        snapshot.status == SourceStatus::Connected <==> !runtime.stopped,
        snapshot.queue_depths.recorder_bytes == crate::queue::total(
            runtime.fanout@.recorder.items,
        ) as usize,
        snapshot.queue_depths.parser_bytes == crate::queue::total(
            runtime.fanout@.parser.items,
        ) as usize,
        snapshot.queue_depths.terminal_bytes == crate::queue::total(
            runtime.fanout@.terminal.items,
        ) as usize,
        snapshot.queue_depths.ipc_bytes == crate::queue::total(runtime.ipc@.items) as usize,
        snapshot.queue_depths.tx_bytes == crate::queue::total(runtime.tx@.queue.items) as usize,
        snapshot.stats == runtime.fanout@.stats,
        snapshot.source_id == runtime.base.source_id,
        snapshot.source_epoch == runtime.base.source_epoch,
        snapshot.epoch_id == runtime.base.epoch_id,
        snapshot.clock_anchor == runtime.base.clock_anchor,
        snapshot.endpoint == runtime.base.endpoint,
        snapshot.transport == runtime.base.transport,
        snapshot.name == runtime.base.name,
{
}

/// A serial line can be connected where no source is, unless a recording waits for a line that
/// carries data otherwise. Its settings go over into the project, which is told where it may
/// change: while nothing is recorded, or where only the port has changed. Nothing else of the
/// project changes.
pub proof fn law_settings_of_a_line_are_taken_over<V: Copy>(
    core: &mut AppCore<V>,
    config: &SerialConfig,
    result: ToolboxResult<Arc<ToolboxProject<V>>>,
    present: ToolboxProject<V>,
    alike: bool,
)
    requires
        old(core).wf(),
        present == *old(core).store@.project,
        call_ensures(serial_semantics_equal, (&present.source.serial, config), alike),
        call_ensures(AppCore::<V>::connect_serial, (core, config), result),
    ensures
        result is Ok <==> old(core).unoccupied() && (alike || old(core).session.current.status
            != SessionStatus::Suspended),
        result is Err ==> final(core).store@ == old(core).store@,
        result is Ok ==> {
            let project = *result->Ok_0;
            let status = old(core).session.current.status;
            let recorded = status == SessionStatus::Recording || status == SessionStatus::Suspended
                || status == SessionStatus::Finalizing;
            let moved = present.source.serial.port_name@ != config.port_name@;
            &&& project.source.serial == *config
            &&& project.source.id == present.source.id
            &&& project.source.name == present.source.name
            &&& project.id == present.id
            &&& project.framer == present.framer
            &&& project.checksum == present.checksum
            &&& project.decoder == present.decoder
            &&& project.channels == present.channels
            &&& project.commands == present.commands
            &&& project.pid_profiles == present.pid_profiles
            &&& !recorded || moved ==> final(core).store@.project == result->Ok_0
                && final(core).store@.recent.last().event_type@ == "project.changed"@
            &&& recorded && !moved ==> final(core).store@ == old(core).store@
        },
        final(core).session == old(core).session,
        final(core).sources == old(core).sources,
        final(core).auto_reconnect == old(core).auto_reconnect,
{
}

/// A generated source is shown by its seed and its rate, and is not connected again by itself.
pub proof fn law_a_generated_source_is_connected<V: Copy>(
    core: &mut AppCore<V>,
    config: &SyntheticConfig,
    result: ToolboxResult<(Arc<ToolboxProject<V>>, String)>,
)
    requires
        old(core).wf(),
        call_ensures(AppCore::<V>::connect_synthetic, (core, config), result),
    ensures
        result is Ok <==> old(core).unoccupied(),
        result is Ok ==> {
            &&& result->Ok_0.0 == old(core).store@.project
            &&& result->Ok_0.1@ == "seed:"@ + decimal(config.seed as nat) + " @ "@ + decimal(
                config.rate_hz as nat,
            ) + " Hz"@
            &&& final(core).auto_reconnect is None
        },
        result is Err ==> final(core).auto_reconnect == old(core).auto_reconnect,
        final(core).store@ == old(core).store@,
        final(core).sources == old(core).sources,
{
}

/// A request goes behind all others that wait at the source that it names, under the number
/// that is told of, and waits there until it is cancelled; one for a source that is not
/// connected is refused, and changes nothing.
pub proof fn law_a_request_waits_at_its_source<V: Copy>(
    sending: &mut AppCore<V>,
    cancelling: &mut AppCore<V>,
    request: TxRequest,
    result: ToolboxResult<TxAccepted>,
    job_id: Uuid,
    cancelled: ToolboxResult<()>,
)
    requires
        old(sending).wf(),
        call_ensures(AppCore::<V>::send, (sending, request), result),
        *old(cancelling) == *final(sending),
        result is Ok ==> job_id == result->Ok_0.job_id,
        call_ensures(
            AppCore::<V>::cancel_tx,
            (cancelling, request.source_id, job_id),
            cancelled,
        ),
    ensures
        !old(sending).sources@.dom().contains(request.source_id) ==> {
            &&& result is Err
            &&& result->Err_0.message_key@ == "source_not_connected"@
            &&& result->Err_0.source_id == Some(request.source_id)
            &&& cancelled is Err
            &&& final(cancelling).sources@ == old(sending).sources@
            &&& final(cancelling).store@ == old(sending).store@
        },
        result is Err && old(sending).sources@.dom().contains(request.source_id) ==> {
            &&& result->Err_0.message_key@ == "tx_queue_full"@
            &&& final(sending).store@ == old(sending).store@
            &&& final(sending).sources@[request.source_id].tx@ == old(sending).sources@[
                request.source_id].tx@
        },
        result is Ok ==> {
            let before = old(sending).sources@[request.source_id];
            let queued = final(sending).sources@[request.source_id];
            let after = final(cancelling).sources@[request.source_id];
            &&& old(sending).sources@.dom().contains(request.source_id)
            &&& queued.tx@.queue.items.len() == before.tx@.queue.items.len() + 1
            &&& queued.tx@.queue.items.drop_last() == before.tx@.queue.items
            &&& queued.tx@.queue.items.last().id == job_id
            &&& queued.tx@.queue.items.last().request == request
            &&& queued.tx@.cancelled == before.tx@.cancelled
            &&& queued.fanout == before.fanout
            &&& latest_says(
                final(sending).store@,
                "tx.queued"@,
                "jobId"@,
                EventDatum::Id(job_id),
            )
            &&& latest_says(
                final(sending).store@,
                "tx.queued"@,
                "sourceId"@,
                EventDatum::Id(before.base.source_id),
            )
            &&& latest_says(
                final(sending).store@,
                "tx.queued"@,
                "sourceEpoch"@,
                EventDatum::Unsigned(before.base.source_epoch),
            )
            &&& latest_says(
                final(sending).store@,
                "tx.queued"@,
                "origin"@,
                EventDatum::Text(request.origin@),
            )
            &&& cancelled is Ok
            &&& after.tx@.cancelled.contains(job_id)
            &&& forall|id: Uuid|
                id != job_id ==> #[trigger] after.tx@.cancelled.contains(id)
                    == before.tx@.cancelled.contains(id)
            &&& after.tx@.queue == queued.tx@.queue
        },
{
    if result is Ok {
        let before = old(sending).sources@[request.source_id];
        let items = before.tx@.queue.items;
        let queued = final(sending).sources@[request.source_id];
        assert(queued.tx@.queue.items.drop_last() =~= items);
        let data = queued_data::<V>(job_id, before.base, request.origin@);
        lemma_latest_says(old(sending).store@, "tx.queued"@, data, final(sending).store@, 0);
        lemma_latest_says(old(sending).store@, "tx.queued"@, data, final(sending).store@, 1);
        lemma_latest_says(old(sending).store@, "tx.queued"@, data, final(sending).store@, 2);
        lemma_latest_says(old(sending).store@, "tx.queued"@, data, final(sending).store@, 3);
    }
}

/// A source that is disconnected is connected no more, and is not connected again by itself.
/// Nothing more of it is recorded: what waited for the recorder stands before a barrier. Its
/// connection then ends: nothing more is taken by any consumer. It is shown as it was, with
/// nothing waiting.
pub proof fn law_a_source_is_disconnected<V: Copy>(
    taking: &mut AppCore<V>,
    stopping: &mut AppCore<V>,
    leaving: &mut AppCore<V>,
    telling: &mut AppCore<V>,
    source_id: Uuid,
    ticket: u64,
    result: ToolboxResult<Leaving>,
    last: SourceSnapshot,
    known: Arc<SourceSnapshot>,
)
    requires
        old(taking).wf(),
        call_ensures(AppCore::<V>::disconnect, (taking, source_id, ticket), result),
        *old(stopping) == *final(taking),
        call_ensures(AppCore::<V>::stop_leaving, (stopping,), ()),
        *old(leaving) == *final(stopping),
        call_ensures(AppCore::<V>::left, (leaving,), ()),
        *old(telling) == *final(leaving),
        old(telling).store@.sources.dom().contains(source_id),
        known == old(telling).store@.sources[source_id],
        call_ensures(AppCore::<V>::disconnected, (telling, source_id), last),
    ensures
        result is Ok <==> old(taking).sources@.dom().contains(source_id),
        final(taking).auto_reconnect is None,
        !final(taking).sources@.dom().contains(source_id),
        final(taking).epoch_counters == old(taking).epoch_counters,
        result is Ok ==> {
            let before = old(taking).sources@[source_id];
            let taken = final(taking).leaving->Some_0;
            let stopped = final(stopping).leaving->Some_0;
            &&& final(taking).leaving is Some
            &&& result->Ok_0.source_epoch == before.base.source_epoch
            &&& !taken.fanout@.accepting
            &&& result->Ok_0.draining ==> {
                &&& !before.stopped
                &&& taken.fanout@.recorder.items.last() == RecorderItem::Barrier(ticket)
            }
            &&& before.stopped ==> taken.fanout@.recorder == before.fanout@.recorder
            &&& taken.fanout@.parser == before.fanout@.parser
            &&& taken.tx == before.tx
            &&& final(stopping).leaving is Some
            &&& stopped.stopped
            &&& stopped.fanout@.recorder.closed
            &&& stopped.fanout@.parser.closed
            &&& stopped.fanout@.terminal.closed
            &&& stopped.ipc@.closed
            &&& stopped.tx@.queue.closed
            &&& stopped.tx@.stopping
            &&& stopped.fanout@.recorder.items == taken.fanout@.recorder.items
            &&& stopped.tx@.queue.items == taken.tx@.queue.items
        },
        final(leaving).leaving is None,
        last.status == SourceStatus::Disconnected,
        last.source_id == known.source_id,
        last.name == known.name,
        last.source_epoch == known.source_epoch,
        last.epoch_id == known.epoch_id,
        last.stats == known.stats,
        last.endpoint == known.endpoint,
        last.queue_depths.recorder_bytes == 0,
        last.queue_depths.parser_bytes == 0,
        last.queue_depths.terminal_bytes == 0,
        last.queue_depths.ipc_bytes == 0,
        last.queue_depths.tx_bytes == 0,
        final(telling).store@.recent.last().event_type@ == "source.disconnected"@,
        final(telling).store@.recent.last().payload == EventPayload::<V>::Source(Arc::new(last)),
{
    if result is Ok && result->Ok_0.draining {
        let before = old(taking).sources@[source_id];
        let taken = final(taking).leaving->Some_0;
        assert(taken.fanout@.recorder.items.last() == RecorderItem::Barrier(ticket));
    }
}

/// A lost connection is tried again at once, and then a second after each time that its device
/// was not there, but never while it stands.
pub proof fn law_a_lost_connection_is_tried_every_second<V: Copy>(
    remembering: &mut AppCore<V>,
    trying: &mut AppCore<V>,
    looking: &mut AppCore<V>,
    retrying: &mut AppCore<V>,
    source_id: Uuid,
    config: SerialConfig,
    ports: &Vec<SerialPortDescriptor>,
    lost_ns: u64,
    first_ns: u64,
    later_ports: &Vec<SerialPortDescriptor>,
    plan: &SerialReconnectPlan,
    found: Option<SerialConfig>,
    later_ns: u64,
    first: ReconnectStep,
    second: ReconnectStep,
)
    requires
        old(remembering).wf(),
        call_ensures(
            AppCore::<V>::remember_serial_reconnect,
            (remembering, source_id, config, ports, lost_ns),
            (),
        ),
        *old(trying) == *final(remembering),
        call_ensures(AppCore::<V>::try_auto_reconnect, (trying, first_ns), first),
        *old(looking) == *final(trying),
        old(looking).auto_reconnect == Some(*plan),
        call_ensures(AppCore::<V>::find_device, (looking, plan, later_ports, first_ns), found),
        *old(retrying) == *final(looking),
        call_ensures(AppCore::<V>::try_auto_reconnect, (retrying, later_ns), second),
    ensures
        plan.source_id == source_id,
        plan.config == config,
        plan.device is Some ==> exists|i: int|
            0 <= i < ports@.len() && plan.device == Some(#[trigger] ports@[i]),
        old(remembering).sources@.dom().contains(source_id) ==> {
            &&& first is Idle <==> first_ns < lost_ns || !old(remembering).sources@[
                source_id].stopped
            &&& first is WindUp <==> first_ns >= lost_ns && old(remembering).sources@[
                source_id].stopped
            &&& first is WindUp ==> {
                &&& first == ReconnectStep::WindUp(*plan)
                &&& !final(trying).sources@.dom().contains(source_id)
                &&& final(trying).leaving == Some(old(remembering).sources@[source_id])
            }
        },
        old(remembering).unoccupied() ==> {
            &&& first is Idle <==> first_ns < lost_ns
            &&& first is Attempt <==> first_ns >= lost_ns
            &&& first is Attempt ==> first == ReconnectStep::Attempt(*plan)
            &&& found is None && first_ns + 1_000_000_000 <= u64::MAX ==> (second is Attempt
                <==> later_ns >= first_ns + 1_000_000_000)
            &&& found is None && first_ns + 1_000_000_000 <= u64::MAX ==> (second is Idle
                <==> later_ns < first_ns + 1_000_000_000)
        },
        found is Some ==> {
            &&& final(looking).auto_reconnect == Some(*plan)
            &&& found->Some_0 == (SerialConfig { port_name: found->Some_0.port_name, ..config })
            &&& latest_says(
                final(looking).store@,
                "source.reconnectAttempt"@,
                "sourceId"@,
                EventDatum::Id(source_id),
            )
            &&& latest_says(
                final(looking).store@,
                "source.reconnectAttempt"@,
                "endpoint"@,
                EventDatum::Text(found->Some_0.port_name@),
            )
        },
        found is None ==> final(looking).store@ == old(looking).store@,
{
    lemma_first_named(ports@, config.port_name@);
    assert(!Map::<Uuid, SourceRuntime>::empty().dom().contains(source_id));
    if found is Some {
        let data = attempt_data::<V>(source_id, found->Some_0.port_name@);
        lemma_latest_says(
            old(looking).store@,
            "source.reconnectAttempt"@,
            data,
            final(looking).store@,
            0,
        );
        lemma_latest_says(
            old(looking).store@,
            "source.reconnectAttempt"@,
            data,
            final(looking).store@,
            1,
        );
    }
}

/// A project is replaced unless it is being recorded with, and only by one that is accepted.
pub proof fn law_a_project_is_replaced_between_recordings<V: Copy>(
    core: &mut AppCore<V>,
    project: Arc<ToolboxProject<V>>,
    result: ToolboxResult<()>,
    acceptable: ToolboxResult<()>,
)
    requires
        old(core).wf(),
        call_ensures(AppCore::<V>::set_project, (core, project), result),
        call_ensures(validate_project::<V>, (&*project,), acceptable),
    ensures
        result is Ok <==> acceptable is Ok && old(core).session.current.status
            != SessionStatus::Recording && old(core).session.current.status
            != SessionStatus::Suspended && old(core).session.current.status
            != SessionStatus::Finalizing,
        result is Ok ==> final(core).store@.project == project,
        result is Ok ==> final(core).store@.recent.last().event_type@ == "project.changed"@,
        result is Err ==> final(core).store@ == old(core).store@,
        final(core).sources == old(core).sources,
        final(core).session == old(core).session,
{
}

/// From the moment at which a recording has begun, what its source carries goes to the
/// recorder; once the recorder is drained, no more does, and a barrier stands behind what
/// waits.
pub proof fn law_a_source_is_recorded_from_start_to_end<V: Copy>(
    starting: &mut AppCore<V>,
    draining: &mut AppCore<V>,
    recorder: Recorder,
    epoch: EpochRow,
    snapshot: SessionSnapshot,
    ticket: u64,
    result: ToolboxResult<bool>,
    id: Uuid,
)
    requires
        old(starting).wf(),
        call_ensures(AppCore::<V>::session_started, (starting, recorder, epoch), snapshot),
        *old(draining) == *final(starting),
        call_ensures(AppCore::<V>::drain_recorder, (draining, ticket), result),
        old(starting).sources@.dom().contains(id),
    ensures
        snapshot.status == SessionStatus::Recording,
        final(starting).sources@[id].fanout@.accepting,
        final(starting).sources@[id].fanout@.recorder == old(starting).sources@[
            id].fanout@.recorder,
        final(starting).sources@[id].fanout@.parser == old(starting).sources@[id].fanout@.parser,
        !final(draining).sources@[id].fanout@.accepting,
        result is Ok ==> result->Ok_0 && final(draining).sources@[
            id].fanout@.recorder.items.last() == RecorderItem::Barrier(ticket),
        result is Err ==> result->Err_0.message_key@ == "recorder_drain_timeout"@,
        result is Err ==> final(draining).sources@[id].fanout@.recorder
            == old(draining).sources@[id].fanout@.recorder,
        final(draining).sources@[id].fanout@.parser == old(starting).sources@[id].fanout@.parser,
        final(draining).sources@[id].tx == old(starting).sources@[id].tx,
{
    assert(final(starting).sources@.dom().contains(id));
    assert(recording_from(old(starting).sources@[id], final(starting).sources@[id]));
    assert(!Map::<Uuid, SourceRuntime>::empty().dom().contains(id));
    assert(old(draining).sources@.dom().contains(id));
}

/// One recording is played at a time, and not the one that is being written.
pub proof fn law_one_recording_is_played_at_a_time<V: Copy>(
    beginning: &mut AppCore<V>,
    again: &mut AppCore<V>,
    stopping: &mut AppCore<V>,
    first: ToolboxResult<()>,
    second: ToolboxResult<()>,
    core: &AppCore<V>,
    path: &String,
    admitted: ToolboxResult<()>,
)
    requires
        old(beginning).wf(),
        call_ensures(AppCore::<V>::start_replay, (beginning,), first),
        *old(again) == *final(beginning),
        call_ensures(AppCore::<V>::start_replay, (again,), second),
        *old(stopping) == *final(again),
        call_ensures(AppCore::<V>::stop_replay, (stopping,), ()),
        call_ensures(AppCore::<V>::admit_replay, (core, path), admitted),
    ensures
        first is Ok <==> !old(beginning).replay.running,
        second is Err,
        final(beginning).replay.running,
        first is Ok ==> !final(beginning).replay.stop_requested,
        first is Ok ==> final(beginning).replay.seek_ns is None,
        final(stopping).replay.stop_requested,
        final(stopping).replay.running,
        admitted is Err <==> core.session.current.path is Some
            && core.session.current.path->Some_0@ == path@ && (core.session.current.status
            == SessionStatus::Recording || core.session.current.status == SessionStatus::Suspended
            || core.session.current.status == SessionStatus::Finalizing),
{
}

/// A snapshot of the workbench shows the connected source as it is now, and all else as it was
/// told last.
pub proof fn law_a_snapshot_is_up_to_date<V: Copy>(
    core: &mut AppCore<V>,
    snapshot: AppSnapshot<V>,
    id: Uuid,
    runtime: &SourceRuntime,
    now: SourceSnapshot,
)
    requires
        old(core).wf(),
        call_ensures(AppCore::<V>::get_snapshot, (core,), snapshot),
        old(core).sources@.dom().contains(id),
        *runtime == old(core).sources@[id],
        call_ensures(SourceRuntime::snapshot, (runtime,), now),
    ensures
        exists|i: int|
            0 <= i < snapshot.sources@.len() && *(#[trigger] snapshot.sources@[i]) == now,
        snapshot.project == old(core).store@.project,
        snapshot.session == old(core).store@.session,
        snapshot.event_cursor == old(core).store@.cursor,
        snapshot.latest_channel_values@ == old(core).store@.latest,
        snapshot.recent_errors@ == old(core).store@.errors,
        final(core).sources == old(core).sources,
{
    assert(!Map::<Uuid, SourceRuntime>::empty().dom().contains(id));
    assert(now == shown(old(core).sources@[id]));
    let store = final(core).store@;
    let order = choose|order: Seq<Uuid>| #[trigger]
        shown_in_order(snapshot.sources@, store.sources, order);
    assert(shown_in_order(snapshot.sources@, store.sources, order));
    let own = now.source_id;
    assert(store.sources.dom().contains(own));
    assert(order.contains(own));
    let i = choose|i: int| 0 <= i < order.len() && order[i] == own;
    assert(snapshot.sources@[i] == store.sources[own]);
    assert(*snapshot.sources@[i] == now);
}

/// A recording of the connected source is planned with the project and under the process that
/// are there; without a source nothing is recorded.
pub proof fn law_a_recording_is_of_the_connected_source<V: Copy>(
    core: &AppCore<V>,
    path: String,
    started_utc_ns: i64,
    anchor_ns: i64,
    result: ToolboxResult<RecordingPlan>,
    id: Uuid,
)
    requires
        core.wf(),
        call_ensures(
            AppCore::<V>::start_session,
            (core, path, false, started_utc_ns, anchor_ns),
            result,
        ),
    ensures
        core.unoccupied() ==> result is Err && result->Err_0.message_key@
            == "source_not_connected"@,
        core.sources@.dom().contains(id) ==> {
            let runtime = core.sources@[id];
            let status = core.session.current.status;
            &&& result is Ok <==> !runtime.stopped && status != SessionStatus::Recording && status
                != SessionStatus::Suspended && status != SessionStatus::Finalizing
            &&& result is Ok ==> {
                let plan = result->Ok_0;
                &&& plan.recorder.path == path
                &&& plan.recorder.runtime_instance_id == core.store@.runtime_instance_id
                &&& plan.recorder.session_anchor_monotonic_ns == anchor_ns
                &&& plan.recorder.epoch_ordinal == 1
                &&& plan.recorder.bytes_written == 0
                &&& plan.session.started_utc_ns == started_utc_ns
                &&& plan.epoch is Ok ==> {
                    &&& plan.epoch->Ok_0.identity.source_id == runtime.base.source_id
                    &&& plan.epoch->Ok_0.identity.source_epoch == runtime.base.source_epoch
                    &&& Some(plan.epoch->Ok_0.identity.epoch_id) == runtime.base.epoch_id
                    &&& plan.epoch->Ok_0.endpoint@ == runtime.base.endpoint@
                }
                &&& plan.epoch is Ok <==> runtime.base.epoch_id is Some
                    && runtime.base.clock_anchor is Some
            }
        },
{
    if core.sources@.dom().contains(id) {
        assert(!Map::<Uuid, SourceRuntime>::empty().dom().contains(id));
    }
}

/// That a connection is waited for, that it was restored and that a recording is played is told
/// with what it is about.
pub proof fn law_what_goes_on_is_told<V: Copy>(
    waiting: &mut AppCore<V>,
    restored: &mut AppCore<V>,
    playing: &mut AppCore<V>,
    plan: &SerialReconnectPlan,
    source: &SourceSnapshot,
    path: &String,
    speed: V,
)
    requires
        old(waiting).wf(),
        old(restored).wf(),
        old(playing).wf(),
        call_ensures(AppCore::<V>::await_reconnect, (waiting, plan), ()),
        call_ensures(AppCore::<V>::reconnected, (restored, source), ()),
        call_ensures(AppCore::<V>::replay_started, (playing, path, speed), ()),
    ensures
        ({
            let told = final(waiting).store@;
            &&& latest_says(
                told,
                "source.reconnectWaiting"@,
                "sourceId"@,
                EventDatum::Id(plan.source_id),
            )
            &&& latest_says(
                told,
                "source.reconnectWaiting"@,
                "endpoint"@,
                EventDatum::Text(plan.config.port_name@),
            )
        }),
        ({
            let told = final(restored).store@;
            &&& latest_says(
                told,
                "source.reconnected"@,
                "sourceId"@,
                EventDatum::Id(source.source_id),
            )
            &&& latest_says(
                told,
                "source.reconnected"@,
                "sourceEpoch"@,
                EventDatum::Unsigned(source.source_epoch),
            )
            &&& latest_says(
                told,
                "source.reconnected"@,
                "endpoint"@,
                EventDatum::Text(source.endpoint@),
            )
        }),
        ({
            let told = final(playing).store@;
            &&& latest_says(told, "replay.started"@, "path"@, EventDatum::Text(path@))
            &&& latest_says(told, "replay.started"@, "speed"@, EventDatum::Number(speed))
        }),
        final(waiting).sources == old(waiting).sources,
        final(waiting).auto_reconnect == old(waiting).auto_reconnect,
        final(restored).auto_reconnect == old(restored).auto_reconnect,
        final(playing).session == old(playing).session,
{
    let (s, t) = (old(waiting).store@, final(waiting).store@);
    let data = attempt_data::<V>(plan.source_id, plan.config.port_name@);
    lemma_latest_says(s, "source.reconnectWaiting"@, data, t, 0);
    lemma_latest_says(s, "source.reconnectWaiting"@, data, t, 1);
    let (s, t) = (old(restored).store@, final(restored).store@);
    let data = reconnected_data::<V>(*source);
    lemma_latest_says(s, "source.reconnected"@, data, t, 0);
    lemma_latest_says(s, "source.reconnected"@, data, t, 1);
    lemma_latest_says(s, "source.reconnected"@, data, t, 2);
    let (s, t) = (old(playing).store@, final(playing).store@);
    let data = replay_data::<V>(path@, speed);
    lemma_latest_says(s, "replay.started"@, data, t, 0);
    lemma_latest_says(s, "replay.started"@, data, t, 1);
}

/// Who subscribes to the streams is counted; a source has a number left for one more connection
/// until the last one was given out.
pub proof fn law_subscribers_of_streams_are_counted<V: Copy>(
    core: &mut AppCore<V>,
    channel: u32,
    count: usize,
    before: &AppCore<V>,
    source_id: Uuid,
    left: bool,
)
    requires
        old(core).wf(),
        *before == *old(core),
        call_ensures(AppCore::<V>::subscribe_stream, (core, channel), count),
        call_ensures(AppCore::<V>::has_epoch_left, (before, source_id), left),
    ensures
        count == before.hub.subscribers().len() + 1,
        final(core).hub.subscribers().last() == channel,
        final(core).hub.subscribers().drop_last() == before.hub.subscribers(),
        left <==> !before.epoch_counters@.dom().contains(source_id)
            || before.epoch_counters@[source_id] < 0xffff_ffff_ffff_ffff,
{
    assert(final(core).hub.subscribers().drop_last() =~= before.hub.subscribers());
}

} // verus!
