//! Sending: one job after another, each in its time.

use crate::error::{code_text, failure, ContextData, ContextValue, ErrorCode, ToolboxError, ToolboxResult};
use crate::event::{
    latest_says, lemma_latest_says, told_error, told_fields, EventData, EventDatum, EventFields,
    EventValue, StateStore, StoreState,
};
use crate::ident::{variant_bits, version_bits, Uuid};
use crate::idmap::IdMap;
use crate::model::{FaultPlan, TxAccepted, TxRequest};
use crate::queue::{ByteQueue, ByteSize, OverflowPolicy, QueueState};
use vstd::prelude::*;

verus! {

/// How many bytes and jobs may wait to be sent.
pub const TX_BYTES: usize = 1_048_576;

pub const TX_JOBS: usize = 1024;

/// No wait is longer than this before the job is looked at again.
pub const TX_POLL_NS: u64 = 20_000_000;

/// How long the line counts as idle before anything was sent.
pub const TX_INITIAL_IDLE_NS: u64 = 60_000_000_000;

/// Where payloads are written to.
pub trait TxTarget {
    /// Writes a payload, and tells how many bytes were taken, or what went wrong.
    fn write_payload(&mut self, payload: &[u8]) -> Result<usize, String>;
}

/// Whether something that happens every so many times happens this time.
pub open spec fn due(every: Option<u64>, count: u64) -> bool {
    match every {
        Some(n) => n != 0 && count % n == 0,
        None => false,
    }
}

/// Whether something that happens every so many times happens this time.
pub fn is_due(every: Option<u64>, count: u64) -> (now: bool)
    ensures
        now == due(every, count),
{
    match every {
        Some(n) => n != 0 && count % n == 0,
        None => false,
    }
}

/// A target that takes everything, except where its plan injects a fault.
pub struct SyntheticTxTarget {
    faults: FaultPlan,
    jobs: u64,
}

/// The answer of a synthetic target to its `job`-th payload.
pub open spec fn synthetic_write(faults: FaultPlan, job: u64, len: nat) -> Result<nat, Seq<char>> {
    if due(faults.fail_write_every_jobs, job) {
        Err("synthetic injected write failure"@)
    } else if due(faults.partial_write_every_jobs, job) {
        Ok(
            if len / 2 == 0 {
                1
            } else {
                len / 2
            },
        )
    } else {
        Ok(len)
    }
}

impl SyntheticTxTarget {
    /// The faults that the target injects.
    pub closed spec fn faults(&self) -> FaultPlan {
        self.faults
    }

    /// How many payloads the target has been given.
    pub closed spec fn jobs(&self) -> u64 {
        self.jobs
    }

    /// A target that has been given nothing.
    pub fn new(faults: FaultPlan) -> (target: SyntheticTxTarget)
        ensures
            target.faults() == faults,
            target.jobs() == 0,
    {
        SyntheticTxTarget { faults, jobs: 0 }
    }
}

impl TxTarget for SyntheticTxTarget {
    fn write_payload(&mut self, payload: &[u8]) -> (result: Result<usize, String>)
        ensures
            final(self).faults() == old(self).faults(),
            final(self).jobs() == old(self).jobs().wrapping_add(1),
            match synthetic_write(final(self).faults(), final(self).jobs(), payload@.len()) {
                Ok(written) => result matches Ok(count) && count == written,
                Err(message) => result matches Err(text) && text@ == message,
            },
    {
        self.jobs = self.jobs.wrapping_add(1);
        if is_due(self.faults.fail_write_every_jobs, self.jobs) {
            return Err("synthetic injected write failure".to_owned());
        }
        if is_due(self.faults.partial_write_every_jobs, self.jobs) {
            let half = payload.len() / 2;
            return Ok(
                if half == 0 {
                    1
                } else {
                    half
                },
            );
        }
        Ok(payload.len())
    }
}

/// A request that was accepted.
#[derive(Debug)]
pub struct TxJob {
    pub id: Uuid,
    pub request: TxRequest,
}

impl ByteSize for TxJob {
    open spec fn size(&self) -> nat {
        if self.request.payload@.len() == 0 {
            1
        } else {
            self.request.payload@.len()
        }
    }

    fn byte_size(&self) -> (bytes: usize) {
        let len = self.request.payload.len();
        if len == 0 {
            1
        } else {
            len
        }
    }
}

/// What is to be done about the job at the head.
#[derive(Debug, Clone, Copy, PartialEq, Eq, Structural)]
pub enum TxDecision {
    /// It was cancelled, or everything stops.
    Cancel,
    /// Its time is over.
    Expire,
    /// It has to wait.
    Wait { nanoseconds: u64, released: bool },
    /// It is to be sent.
    Send,
}

/// The shorter of a wait and the polling interval.
pub open spec fn poll_wait(nanoseconds: int) -> u64 {
    if nanoseconds < TX_POLL_NS {
        nanoseconds as u64
    } else {
        TX_POLL_NS
    }
}

/// Whether the time of a request is over.
pub open spec fn past_deadline(request: TxRequest, now_ms: i64) -> bool {
    match request.deadline_unix_ms {
        Some(deadline) => now_ms >= deadline,
        None => false,
    }
}

/// How long the line has to be idle before a request is sent.
pub open spec fn required_gap_ns(request: TxRequest) -> int {
    match request.min_gap_ms {
        Some(gap) => gap * 1_000_000,
        None => 0,
    }
}

/// What is to be done about a job. First it waits for its earliest time; `released`
/// says that this has come. Then it waits until the line was idle long enough. As
/// long as it waits it can be cancelled and can expire.
pub open spec fn tx_decision(
    request: TxRequest,
    released: bool,
    cancelled: bool,
    now_ms: i64,
    idle_ns: int,
) -> TxDecision {
    if !released && cancelled {
        TxDecision::Cancel
    } else if !released && past_deadline(request, now_ms) {
        TxDecision::Expire
    } else if !released && (request.not_before_unix_ms matches Some(earliest) && earliest > now_ms) {
        TxDecision::Wait {
            nanoseconds: poll_wait((request.not_before_unix_ms->Some_0 - now_ms) * 1_000_000),
            released: false,
        }
    } else if idle_ns >= required_gap_ns(request) {
        TxDecision::Send
    } else if cancelled {
        TxDecision::Cancel
    } else if past_deadline(request, now_ms) {
        TxDecision::Expire
    } else {
        TxDecision::Wait {
            nanoseconds: poll_wait(required_gap_ns(request) - idle_ns),
            released: true,
        }
    }
}

fn decide(
    request: &TxRequest,
    released: bool,
    cancelled: bool,
    now_ms: i64,
    idle_ns: u128,
) -> (decision: TxDecision)
    ensures
        decision == tx_decision(*request, released, cancelled, now_ms, idle_ns as int),
{
    let late = match request.deadline_unix_ms {
        Some(deadline) => now_ms >= deadline,
        None => false,
    };
    if !released {
        if cancelled {
            return TxDecision::Cancel;
        }
        if late {
            return TxDecision::Expire;
        }
        if let Some(earliest) = request.not_before_unix_ms {
            if earliest > now_ms {
                let wait = (earliest as i128 - now_ms as i128) * 1_000_000;
                return TxDecision::Wait {
                    nanoseconds: if wait < TX_POLL_NS as i128 {
                        wait as u64
                    } else {
                        TX_POLL_NS
                    },
                    released: false,
                };
            }
        }
    }
    let gap: u128 = match request.min_gap_ms {
        Some(gap) => gap as u128 * 1_000_000,
        None => 0,
    };
    if idle_ns >= gap {
        return TxDecision::Send;
    }
    if cancelled {
        return TxDecision::Cancel;
    }
    if late {
        return TxDecision::Expire;
    }
    let wait = gap - idle_ns;
    TxDecision::Wait {
        nanoseconds: if wait < TX_POLL_NS as u128 {
            wait as u64
        } else {
            TX_POLL_NS
        },
        released: true,
    }
}

/// What the sender does next.
#[derive(Debug)]
pub enum TxAction {
    /// Nothing is left to do.
    Finished,
    /// No job is there.
    Idle,
    /// A job was disposed of; look again at once.
    Again,
    /// Look again after this time.
    Sleep { nanoseconds: u64 },
    /// Write the payload of this job.
    Write(TxJob),
}

/// Everything that a scheduler holds.
#[verifier::ext_equal]
pub struct TxState {
    pub source_epoch: u64,
    pub queue: QueueState<TxJob>,
    pub current: Option<TxJob>,
    pub released: bool,
    pub cancelled: Set<Uuid>,
    pub stopping: bool,
    pub last_sent_ns: Option<u64>,
}

impl TxState {
    /// A scheduler that has accepted nothing yet, and accepts and sends.
    pub open spec fn fresh(source_epoch: u64) -> TxState {
        TxState {
            source_epoch,
            queue: QueueState {
                items: Seq::empty(),
                closed: false,
                max_bytes: TX_BYTES as nat,
                max_items: TX_JOBS as nat,
            },
            current: None,
            released: false,
            cancelled: Set::empty(),
            stopping: false,
            last_sent_ns: None,
        }
    }

    /// The jobs that were accepted and not yet disposed of, in order of acceptance.
    pub open spec fn waiting(self) -> Seq<TxJob> {
        match self.current {
            Some(job) => seq![job] + self.queue.items,
            None => self.queue.items,
        }
    }

    /// How long the line has been idle.
    pub open spec fn idle_ns(self, now_ns: u64) -> int {
        match self.last_sent_ns {
            Some(sent) => if now_ns > sent {
                now_ns - sent
            } else {
                0
            },
            None => TX_INITIAL_IDLE_NS + now_ns,
        }
    }

    /// The state with the first waiting job under consideration.
    pub open spec fn considering(self) -> TxState {
        if self.current is None && self.queue.items.len() > 0 {
            TxState {
                current: Some(self.queue.items[0]),
                released: false,
                queue: self.queue.popped(),
                ..self
            }
        } else {
            self
        }
    }

    /// The state without the job under consideration.
    pub open spec fn disposed(self) -> TxState {
        TxState { current: None, released: false, ..self }
    }

    /// The state in which a job can no longer be cancelled by name.
    pub open spec fn uncancelled(self, id: Uuid) -> TxState {
        TxState { cancelled: self.cancelled.remove(id), ..self }
    }

    /// The state in which the job under consideration waits.
    pub open spec fn waiting_on(self, released: bool) -> TxState {
        TxState { released, ..self }
    }
}

/// What an event says of a cancelled job.
pub open spec fn cancelled_data<V>(job: TxJob, source_epoch: u64) -> EventData<V> {
    seq![
        ("jobId"@, EventDatum::Id(job.id)),
        ("sourceId"@, EventDatum::Id(job.request.source_id)),
        ("sourceEpoch"@, EventDatum::Unsigned(source_epoch)),
    ]
}

/// What an event says of a job that failed with a code.
pub open spec fn failed_data<V>(job: TxJob, code: ErrorCode) -> EventData<V> {
    seq![("jobId"@, EventDatum::Id(job.id)), ("code"@, EventDatum::Text(code_text(code)))]
}

/// What an event says of a job that is being sent.
pub open spec fn sending_data<V>(job: TxJob, source_epoch: u64) -> EventData<V> {
    seq![
        ("jobId"@, EventDatum::Id(job.id)),
        ("sourceId"@, EventDatum::Id(job.request.source_id)),
        ("sourceEpoch"@, EventDatum::Unsigned(source_epoch)),
        ("origin"@, EventDatum::Text(job.request.origin@)),
    ]
}

/// What an event says of a job that was sent.
pub open spec fn sent_data<V>(job: TxJob, source_epoch: u64) -> EventData<V> {
    seq![
        ("jobId"@, EventDatum::Id(job.id)),
        ("bytes"@, EventDatum::Unsigned(job.request.payload@.len() as u64)),
        ("sourceEpoch"@, EventDatum::Unsigned(source_epoch)),
    ]
}

/// One look at the jobs: what is done, and what becomes of the scheduler and of the
/// application's state.
pub open spec fn tx_stepped<V>(
    before: TxState,
    now_ms: i64,
    now_ns: u64,
    store: StoreState<V>,
    action: TxAction,
    after: TxState,
    store_after: StoreState<V>,
) -> bool {
    let held = before.considering();
    match held.current {
        None => {
            &&& after == before
            &&& store_after == store
            &&& action == if before.stopping {
                TxAction::Finished
            } else {
                TxAction::Idle
            }
        },
        Some(job) => {
            let marked = held.cancelled.contains(job.id);
            let decision = tx_decision(
                job.request,
                held.released,
                marked || held.stopping,
                now_ms,
                held.idle_ns(now_ns),
            );
            match decision {
                TxDecision::Cancel => {
                    &&& action is Again
                    &&& after == held.disposed().uncancelled(job.id)
                    &&& told_fields(
                        store,
                        "tx.cancelled"@,
                        cancelled_data(job, held.source_epoch),
                        store_after,
                    )
                },
                TxDecision::Expire => {
                    &&& action is Again
                    &&& after == held.disposed()
                    &&& told_fields(
                        store,
                        "tx.failed"@,
                        failed_data(job, ErrorCode::TxTimeout),
                        store_after,
                    )
                },
                TxDecision::Wait { nanoseconds, released } => {
                    &&& action == (TxAction::Sleep { nanoseconds })
                    &&& after == held.waiting_on(released)
                    &&& store_after == store
                },
                TxDecision::Send => {
                    &&& action == TxAction::Write(job)
                    &&& after == held.disposed()
                    &&& told_fields(
                        store,
                        "tx.sending"@,
                        sending_data(job, held.source_epoch),
                        store_after,
                    )
                },
            }
        },
    }
}

/// What is said of a job of which only a part was taken.
pub open spec fn partial_write_error(job: TxJob, written: nat) -> crate::error::ErrorData {
    failure(ErrorCode::TxPartialWrite, "tx.write"@, "partial_write"@).at(
        job.request.source_id,
    ).noting("jobId"@, ContextData::Id(job.id)).noting(
        "written"@,
        ContextData::Unsigned(written as u64),
    ).noting("expected"@, ContextData::Unsigned(job.request.payload@.len() as u64))
}

/// What is said of a job that could not be written.
pub open spec fn device_write_error(job: TxJob, cause: Seq<char>) -> crate::error::ErrorData {
    failure(ErrorCode::DeviceWrite, "tx.write"@, "device_write_failed"@).at(
        job.request.source_id,
    ).noting("jobId"@, ContextData::Id(job.id)).because(cause)
}

/// What becomes of everything when a write is over.
pub open spec fn write_finished<V>(
    before: TxState,
    job: TxJob,
    result: Result<usize, String>,
    now_ns: u64,
    store: StoreState<V>,
    after: TxState,
    store_after: StoreState<V>,
) -> bool {
    match result {
        Ok(written) => if written == job.request.payload@.len() {
            &&& after == TxState { last_sent_ns: Some(now_ns), ..before }
            &&& told_fields(
                store,
                "tx.sent"@,
                sent_data(job, before.source_epoch),
                store_after,
            )
        } else {
            &&& after == before
            &&& exists|noted: StoreState<V>|
                {
                    &&& #[trigger] told_error(
                        store,
                        partial_write_error(job, written as nat),
                        noted,
                    )
                    &&& told_fields(
                        noted,
                        "tx.failed"@,
                        failed_data(job, ErrorCode::TxPartialWrite).push(
                            ("written"@, EventDatum::Unsigned(written as u64)),
                        ),
                        store_after,
                    )
                }
        },
        Err(cause) => {
            &&& after == before
            &&& exists|noted: StoreState<V>|
                {
                    &&& #[trigger] told_error(store, device_write_error(job, cause@), noted)
                    &&& told_fields(
                        noted,
                        "tx.failed"@,
                        failed_data(job, ErrorCode::DeviceWrite),
                        store_after,
                    )
                }
        },
    }
}

/// The bytes of a payload that a target took.
pub open spec fn taken_bytes(job: TxJob, result: Result<usize, String>) -> Seq<u8> {
    match result {
        Ok(written) => if written <= job.request.payload@.len() {
            job.request.payload@.take(written as int)
        } else {
            Seq::empty()
        },
        Err(_) => Seq::empty(),
    }
}

/// The bytes of a payload that a target took.
pub fn bytes_taken(job: &TxJob, result: &Result<usize, String>) -> (bytes: Vec<u8>)
    ensures
        bytes@ == taken_bytes(*job, *result),
{
    let mut bytes: Vec<u8> = Vec::new();
    if let Ok(written) = result {
        if *written <= job.request.payload.len() {
            bytes.extend_from_slice(
                vstd::slice::slice_subrange(job.request.payload.as_slice(), 0, *written),
            );
        }
    }
    assert(bytes@ =~= taken_bytes(*job, *result));
    bytes
}

/// Accepts jobs and has them sent in order.
pub struct TxScheduler {
    source_epoch: u64,
    queue: ByteQueue<TxJob>,
    current: Option<TxJob>,
    released: bool,
    cancelled: IdMap<()>,
    stopping: bool,
    last_sent_ns: Option<u64>,
}

impl View for TxScheduler {
    type V = TxState;

    closed spec fn view(&self) -> TxState {
        TxState {
            source_epoch: self.source_epoch,
            queue: self.queue@,
            current: self.current,
            released: self.released,
            cancelled: self.cancelled@.dom(),
            stopping: self.stopping,
            last_sent_ns: self.last_sent_ns,
        }
    }
}

impl TxScheduler {
    /// The queue is well formed, and only a job under consideration can have been
    /// released.
    pub closed spec fn wf(&self) -> bool {
        &&& self.queue.wf()
        &&& self.cancelled.wf()
        &&& self.released ==> self.current is Some
    }

    /// A scheduler without jobs for one connection of a source.
    pub fn new(source_epoch: u64) -> (scheduler: TxScheduler)
        ensures
            scheduler.wf(),
            scheduler@ == TxState::fresh(source_epoch),
    {
        let scheduler = TxScheduler {
            source_epoch,
            queue: ByteQueue::new(TX_BYTES, TX_JOBS),
            current: None,
            released: false,
            cancelled: IdMap::new(),
            stopping: false,
            last_sent_ns: None,
        };
        assert(scheduler@.cancelled =~= Set::<Uuid>::empty());
        scheduler
    }

    /// Accepts a request under a fresh identifier, unless too much is waiting or
    /// everything stops.
    pub fn enqueue(&mut self, request: TxRequest) -> (result: ToolboxResult<TxAccepted>)
        requires
            old(self).wf(),
        ensures
            final(self).wf(),
            match result {
                Ok(accepted) => {
                    let job = TxJob { id: accepted.job_id, request };
                    &&& !old(self)@.queue.refuses(job.size(), OverflowPolicy::Reject)
                    &&& version_bits(accepted.job_id.value) == 7
                    &&& variant_bits(accepted.job_id.value) == 2
                    &&& final(self)@ == (TxState {
                        queue: QueueState {
                            items: old(self)@.queue.items.push(job),
                            ..old(self)@.queue
                        },
                        ..old(self)@
                    })
                },
                Err(error) => {
                    &&& old(self)@.queue.refuses(
                        (TxJob { id: Uuid { value: 0 }, request }).size(),
                        OverflowPolicy::Reject,
                    )
                    &&& error@ == failure(
                        ErrorCode::TxQueueFull,
                        "tx.enqueue"@,
                        "tx_queue_full"@,
                    ).at(request.source_id)
                    &&& final(self)@ == old(self)@
                },
            },
    {
        let id = Uuid::now_v7();
        let source_id = request.source_id;
        let ghost job = TxJob { id, request };
        assert(job.size() == (TxJob { id: Uuid { value: 0 }, request }).size());
        match self.queue.push(TxJob { id, request }, OverflowPolicy::Reject) {
            Ok(_) => {
                assert(self@.queue =~= QueueState {
                    items: old(self)@.queue.items.push(job),
                    ..old(self)@.queue
                });
                Ok(TxAccepted { job_id: id })
            },
            Err(_) => Err(
                ToolboxError::new(
                    ErrorCode::TxQueueFull,
                    "tx.enqueue",
                    "tx_queue_full",
                ).source(source_id),
            ),
        }
    }

    /// Marks a job to be dropped if it is still waiting.
    pub fn cancel(&mut self, job_id: Uuid)
        requires
            old(self).wf(),
        ensures
            final(self).wf(),
            final(self)@ == (TxState {
                cancelled: old(self)@.cancelled.insert(job_id),
                ..old(self)@
            }),
    {
        self.cancelled.insert(job_id, ());
        assert(self@.cancelled =~= old(self)@.cancelled.insert(job_id));
    }

    /// How many bytes wait in the queue.
    pub fn depth_bytes(&self) -> (bytes: usize)
        requires
            self.wf(),
        ensures
            bytes == crate::queue::total(self@.queue.items),
    {
        self.queue.depth_bytes()
    }

    /// Sends nothing any more; what waits is cancelled.
    pub fn halt(&mut self)
        requires
            old(self).wf(),
        ensures
            final(self).wf(),
            final(self)@ == (TxState { stopping: true, ..old(self)@ }),
    {
        self.stopping = true;
        assert(self@ =~= TxState { stopping: true, ..old(self)@ });
    }

    /// Accepts nothing any more; what waits is cancelled.
    pub fn stop(&mut self)
        requires
            old(self).wf(),
        ensures
            final(self).wf(),
            final(self)@ == (TxState {
                stopping: true,
                queue: QueueState { closed: true, ..old(self)@.queue },
                ..old(self)@
            }),
    {
        self.stopping = true;
        self.queue.close();
    }

    /// Looks at the jobs once.
    pub fn step<V: Copy>(&mut self, now_ms: i64, now_ns: u64, state: &mut StateStore<V>) -> (action:
        TxAction)
        requires
            old(self).wf(),
            old(state).wf(),
        ensures
            final(self).wf(),
            final(state).wf(),
            tx_stepped(
                old(self)@,
                now_ms,
                now_ns,
                old(state)@,
                action,
                final(self)@,
                final(state)@,
            ),
    {
        let ghost before = self@;
        if self.current.is_none() {
            match self.queue.try_pop() {
                Some(job) => {
                    self.current = Some(job);
                    self.released = false;
                    assert(self@ =~= before.considering());
                },
                None => {
                    assert(self@ =~= before);
                    return if self.stopping {
                        TxAction::Finished
                    } else {
                        TxAction::Idle
                    };
                },
            }
        }
        let ghost held = before.considering();
        assert(self@ =~= held);
        let idle_ns: u128 = match self.last_sent_ns {
            Some(sent) => if now_ns > sent {
                (now_ns - sent) as u128
            } else {
                0
            },
            None => TX_INITIAL_IDLE_NS as u128 + now_ns as u128,
        };
        let mut current: Option<TxJob> = None;
        std::mem::swap(&mut current, &mut self.current);
        if let Some(job) = current {
            let marked = self.cancelled.contains(job.id);
            let decision = decide(
                &job.request,
                self.released,
                marked || self.stopping,
                now_ms,
                idle_ns,
            );
            match decision {
                TxDecision::Cancel => {
                    self.released = false;
                    self.cancelled.remove(job.id);
                    assert(self@ =~= held.disposed().uncancelled(job.id));
                    let fields = EventFields::new().with("jobId", EventValue::Id(job.id)).with(
                        "sourceId",
                        EventValue::Id(job.request.source_id),
                    ).with("sourceEpoch", EventValue::Unsigned(self.source_epoch));
                    assert(fields@ =~= cancelled_data(job, held.source_epoch));
                    state.emit_fields("tx.cancelled", fields);
                    TxAction::Again
                },
                TxDecision::Expire => {
                    self.released = false;
                    assert(self@ =~= held.disposed());
                    let fields = EventFields::new().with("jobId", EventValue::Id(job.id)).with(
                        "code",
                        EventValue::Text(ErrorCode::TxTimeout.as_str().to_owned()),
                    );
                    assert(fields@ =~= failed_data(job, ErrorCode::TxTimeout));
                    state.emit_fields("tx.failed", fields);
                    TxAction::Again
                },
                TxDecision::Wait { nanoseconds, released } => {
                    self.released = released;
                    self.current = Some(job);
                    assert(self@ =~= held.waiting_on(released));
                    TxAction::Sleep { nanoseconds }
                },
                TxDecision::Send => {
                    self.released = false;
                    assert(self@ =~= held.disposed());
                    let fields = EventFields::new().with("jobId", EventValue::Id(job.id)).with(
                        "sourceId",
                        EventValue::Id(job.request.source_id),
                    ).with("sourceEpoch", EventValue::Unsigned(self.source_epoch)).with(
                        "origin",
                        EventValue::Text(job.request.origin.clone()),
                    );
                    assert(fields@ =~= sending_data(job, held.source_epoch));
                    state.emit_fields("tx.sending", fields);
                    TxAction::Write(job)
                },
            }
        } else {
            TxAction::Idle
        }
    }

    /// Tells what came of a write.
    pub fn finish_write<V: Copy>(
        &mut self,
        job: &TxJob,
        result: Result<usize, String>,
        now_ns: u64,
        state: &mut StateStore<V>,
    )
        requires
            old(self).wf(),
            old(state).wf(),
            result matches Ok(written) ==> written <= job.request.payload@.len(),
        ensures
            final(self).wf(),
            final(state).wf(),
            write_finished(
                old(self)@,
                *job,
                result,
                now_ns,
                old(state)@,
                final(self)@,
                final(state)@,
            ),
    {
        match result {
            Ok(written) => {
                if written == job.request.payload.len() {
                    self.last_sent_ns = Some(now_ns);
                    let fields = EventFields::new().with("jobId", EventValue::Id(job.id)).with(
                        "bytes",
                        EventValue::Unsigned(written as u64),
                    ).with("sourceEpoch", EventValue::Unsigned(self.source_epoch));
                    assert(fields@ =~= sent_data(*job, self@.source_epoch));
                    state.emit_fields("tx.sent", fields);
                } else {
                    let error = ToolboxError::new(
                        ErrorCode::TxPartialWrite,
                        "tx.write",
                        "partial_write",
                    ).source(job.request.source_id).context("jobId", ContextValue::Id(job.id)).context(
                        "written",
                        ContextValue::Unsigned(written as u64),
                    ).context(
                        "expected",
                        ContextValue::Unsigned(job.request.payload.len() as u64),
                    );
                    state.push_error(error);
                    let ghost noted = state@;
                    assert(told_error(
                        old(state)@,
                        partial_write_error(*job, written as nat),
                        noted,
                    ));
                    let fields = EventFields::new().with("jobId", EventValue::Id(job.id)).with(
                        "code",
                        EventValue::Text(ErrorCode::TxPartialWrite.as_str().to_owned()),
                    ).with("written", EventValue::Unsigned(written as u64));
                    assert(fields@ =~= failed_data(*job, ErrorCode::TxPartialWrite).push(
                        ("written"@, EventDatum::Unsigned(written as u64)),
                    ));
                    state.emit_fields("tx.failed", fields);
                }
            },
            Err(cause) => {
                let ghost text = cause@;
                let error = ToolboxError::new(
                    ErrorCode::DeviceWrite,
                    "tx.write",
                    "device_write_failed",
                ).source(job.request.source_id).context("jobId", ContextValue::Id(job.id)).cause(
                    cause,
                );
                state.push_error(error);
                let ghost noted = state@;
                assert(told_error(old(state)@, device_write_error(*job, text), noted));
                let fields = EventFields::new().with("jobId", EventValue::Id(job.id)).with(
                    "code",
                    EventValue::Text(ErrorCode::DeviceWrite.as_str().to_owned()),
                );
                assert(fields@ =~= failed_data(*job, ErrorCode::DeviceWrite));
                state.emit_fields("tx.failed", fields);
            },
        }
    }
}

/// Jobs are disposed of in the order in which they were accepted: a look leaves all
/// of them waiting or takes the first one, and a payload that is to be written is
/// that of the first one.
pub proof fn law_jobs_are_sent_in_order<V>(
    before: TxState,
    now_ms: i64,
    now_ns: u64,
    store: StoreState<V>,
    action: TxAction,
    after: TxState,
    store_after: StoreState<V>,
)
    requires
        tx_stepped(before, now_ms, now_ns, store, action, after, store_after),
    ensures
        after.waiting() == before.waiting() || (before.waiting().len() > 0 && after.waiting()
            == before.waiting().drop_first()),
        action matches TxAction::Write(job) ==> before.waiting().len() > 0 && job
            == before.waiting()[0] && after.waiting() == before.waiting().drop_first(),
        action is Idle || action is Finished ==> before.waiting().len() == 0,
{
    let held = before.considering();
    assert(held.waiting() =~= before.waiting());
    if held.current is Some {
        assert(held.disposed().waiting() =~= held.waiting().drop_first());
        match action {
            TxAction::Sleep { .. } => {
                assert(after.waiting() =~= held.waiting());
            },
            _ => {
                assert(after.waiting() =~= held.waiting().drop_first());
            },
        }
    }
}

/// A job that was cancelled or has expired by the time it is first looked at is
/// never sent, and neither is any job once everything stops.
pub proof fn law_cancelled_and_expired_jobs_are_not_sent(
    request: TxRequest,
    cancelled: bool,
    now_ms: i64,
    idle_ns: int,
)
    requires
        cancelled || past_deadline(request, now_ms),
    ensures
        tx_decision(request, false, cancelled, now_ms, idle_ns) is Cancel || tx_decision(
            request,
            false,
            cancelled,
            now_ms,
            idle_ns,
        ) is Expire,
{
}

/// A payload is written only when its earliest time has come and the line was idle
/// long enough.
pub proof fn law_sending_respects_time_and_gap(
    request: TxRequest,
    cancelled: bool,
    now_ms: i64,
    idle_ns: int,
)
    requires
        tx_decision(request, false, cancelled, now_ms, idle_ns) is Send,
    ensures
        request.not_before_unix_ms matches Some(earliest) ==> earliest <= now_ms,
        idle_ns >= required_gap_ns(request),
        !cancelled,
        !past_deadline(request, now_ms),
{
}

/// No wait is longer than the polling interval, so that a job can be cancelled, and
/// can expire, while it waits.
pub proof fn law_waits_are_short(
    request: TxRequest,
    released: bool,
    cancelled: bool,
    now_ms: i64,
    idle_ns: int,
)
    ensures
        tx_decision(request, released, cancelled, now_ms, idle_ns) matches TxDecision::Wait {
            nanoseconds,
            ..
        } ==> 0 < nanoseconds <= TX_POLL_NS,
{
}

/// What happens every so many times happens at the multiples of that number, and never where
/// it is zero or not asked for.
pub proof fn law_every_so_many_times(every: Option<u64>, count: u64, now: bool)
    requires
        call_ensures(is_due, (every, count), now),
    ensures
        now <==> (every matches Some(n) && n > 0 && exists|times: int|
            count == #[trigger] (times * n)),
{
    if let Some(n) = every {
        if n > 0 {
            let (c, d) = (count as int, n as int);
            vstd::arithmetic::div_mod::lemma_fundamental_div_mod(c, d);
            if c % d == 0 {
                let times = c / d;
                assert(times * d == d * times) by (nonlinear_arith);
                assert(count == times * n);
            }
            if exists|times: int| count == #[trigger] (times * n) {
                let times = choose|times: int| count == #[trigger] (times * n);
                vstd::arithmetic::div_mod::lemma_mod_multiples_basic(times, d);
            }
        }
    }
}

/// The shorter of a time and twenty milliseconds.
pub open spec fn at_most_twenty_ms(nanoseconds: int) -> int {
    if nanoseconds < 20_000_000 {
        nanoseconds
    } else {
        20_000_000
    }
}

/// A look at the first waiting job, which was not held up before, goes by its request: a
/// cancelled job, or any once sending stops, is told of as cancelled; one past its deadline
/// fails; one before its earliest time waits for it; one too soon after what was sent last
/// waits for the gap; and any other is to be written. Without jobs there is nothing to do.
pub proof fn law_a_job_goes_out_in_its_time<V: Copy>(
    scheduler: &mut TxScheduler,
    now_ms: i64,
    now_ns: u64,
    store: &mut StateStore<V>,
    action: TxAction,
)
    requires
        old(scheduler).wf(),
        old(store).wf(),
        !old(scheduler)@.released,
        call_ensures(
            TxScheduler::step::<V>,
            (scheduler, now_ms, now_ns, store),
            action,
        ),
    ensures
        ({
            let before = old(scheduler)@;
            let after = final(scheduler)@;
            let jobs = before.waiting();
            let rest = after.waiting();
            if jobs.len() == 0 {
                &&& rest.len() == 0
                &&& action is Finished <==> before.stopping
                &&& action is Idle <==> !before.stopping
            } else {
                let job = jobs[0];
                let request = job.request;
                let cancelled = before.stopping || before.cancelled.contains(job.id);
                let expired = request.deadline_unix_ms matches Some(deadline) && now_ms
                    >= deadline;
                let early = request.not_before_unix_ms matches Some(earliest) && now_ms
                    < earliest;
                let gap = match request.min_gap_ms {
                    Some(gap) => gap as int * 1_000_000,
                    None => 0,
                };
                let idle = match before.last_sent_ns {
                    Some(sent) => if now_ns >= sent {
                        now_ns - sent
                    } else {
                        0
                    },
                    None => 60_000_000_000 + now_ns,
                };
                &&& cancelled || expired ==> action is Again && rest == jobs.drop_first()
                &&& !cancelled && !expired && early ==> {
                    &&& rest == jobs
                    &&& action == (TxAction::Sleep {
                        nanoseconds: at_most_twenty_ms(
                            (request.not_before_unix_ms->Some_0 - now_ms) * 1_000_000,
                        ) as u64,
                    })
                }
                &&& !cancelled && !expired && !early && idle < gap ==> {
                    &&& rest == jobs
                    &&& action == (TxAction::Sleep {
                        nanoseconds: at_most_twenty_ms(gap - idle) as u64,
                    })
                }
                &&& !cancelled && !expired && !early && idle >= gap ==> {
                    &&& rest == jobs.drop_first()
                    &&& action == TxAction::Write(job)
                }
            }
        }),
        final(scheduler)@.last_sent_ns == old(scheduler)@.last_sent_ns,
        final(scheduler)@.stopping == old(scheduler)@.stopping,
{
    let before = old(scheduler)@;
    let after = final(scheduler)@;
    let held = before.considering();
    assert(held.waiting() =~= before.waiting());
    if held.current is Some {
        assert(held.disposed().waiting() =~= held.waiting().drop_first());
        match action {
            TxAction::Sleep { .. } => {
                assert(after.waiting() =~= held.waiting());
            },
            _ => {
                assert(after.waiting() =~= held.waiting().drop_first());
            },
        }
    }
}

/// A payload that was written whole sets the time from which gaps count; after it no payload
/// goes out before its gap is over. One that was written in part or not at all leaves that
/// time as it was. Nothing that waits is touched.
pub proof fn law_gaps_count_from_what_was_sent<V: Copy>(
    scheduler: &mut TxScheduler,
    job: &TxJob,
    result: Result<usize, String>,
    sent_ns: u64,
    store: &mut StateStore<V>,
    looked: &mut TxScheduler,
    now_ms: i64,
    now_ns: u64,
    looked_store: &mut StateStore<V>,
    action: TxAction,
)
    requires
        old(scheduler).wf(),
        old(store).wf(),
        old(looked_store).wf(),
        !old(scheduler)@.released,
        result matches Ok(written) ==> written <= job.request.payload@.len(),
        call_ensures(
            TxScheduler::finish_write::<V>,
            (scheduler, job, result, sent_ns, store),
            (),
        ),
        *old(looked) == *final(scheduler),
        call_ensures(
            TxScheduler::step::<V>,
            (looked, now_ms, now_ns, looked_store),
            action,
        ),
    ensures
        final(scheduler)@.waiting() == old(scheduler)@.waiting(),
        final(scheduler)@.last_sent_ns == if result matches Ok(written) && written
            == job.request.payload@.len() {
            Some(sent_ns)
        } else {
            old(scheduler)@.last_sent_ns
        },
        result is Ok && result->Ok_0 == job.request.payload@.len() && action is Write
            && action->Write_0.request.min_gap_ms is Some
            && action->Write_0.request.min_gap_ms->Some_0 > 0 ==> now_ns >= sent_ns
            + action->Write_0.request.min_gap_ms->Some_0 * 1_000_000,
{
    law_a_job_goes_out_in_its_time(looked, now_ms, now_ns, looked_store, action);
    assert(final(scheduler)@.waiting() =~= old(scheduler)@.waiting());
}

/// Requests wait behind those that were accepted before them.
pub proof fn law_requests_wait_their_turn(
    first: &mut TxScheduler,
    second: &mut TxScheduler,
    requests: (TxRequest, TxRequest),
    accepted: (TxAccepted, TxAccepted),
)
    requires
        old(first).wf(),
        call_ensures(
            TxScheduler::enqueue,
            (first, requests.0),
            Ok::<TxAccepted, ToolboxError>(accepted.0),
        ),
        *old(second) == *final(first),
        call_ensures(
            TxScheduler::enqueue,
            (second, requests.1),
            Ok::<TxAccepted, ToolboxError>(accepted.1),
        ),
    ensures
        ({
            let jobs = final(second)@.waiting();
            let before = old(first)@.waiting();
            &&& jobs.len() == before.len() + 2
            &&& jobs.take(before.len() as int) == before
            &&& jobs[before.len() as int].id == accepted.0.job_id
            &&& jobs[before.len() as int].request == requests.0
            &&& jobs.last().id == accepted.1.job_id
            &&& jobs.last().request == requests.1
        }),
{
    assert(final(second)@.waiting().take(old(first)@.waiting().len() as int) =~= old(
        first,
    )@.waiting());
}

/// The bytes that a target took are as many as it says, from the beginning of the payload;
/// of a payload that failed there are none.
pub proof fn law_taken_bytes_begin_the_payload(
    job: &TxJob,
    result: &Result<usize, String>,
    bytes: Vec<u8>,
)
    requires
        call_ensures(bytes_taken, (job, result), bytes),
    ensures
        result is Err ==> bytes@.len() == 0,
        result is Ok && result->Ok_0 <= job.request.payload@.len() ==> bytes@.len()
            == result->Ok_0,
        forall|i: int|
            0 <= i < bytes@.len() ==> i < job.request.payload@.len() && #[trigger] bytes@[i]
                == job.request.payload@[i],
{
}

/// A synthetic target takes whole payloads, except that every so many of them it fails, and
/// every so many of them it takes half, but at least one byte. Failing comes first.
pub proof fn law_a_synthetic_target_follows_its_plan(
    target: &mut SyntheticTxTarget,
    payload: &[u8],
    result: Result<usize, String>,
    fails: bool,
    halves: bool,
)
    requires
        old(target).jobs() < u64::MAX,
        call_ensures(<SyntheticTxTarget as TxTarget>::write_payload, (target, payload), result),
        call_ensures(
            is_due,
            (old(target).faults().fail_write_every_jobs, (old(target).jobs() + 1) as u64),
            fails,
        ),
        call_ensures(
            is_due,
            (old(target).faults().partial_write_every_jobs, (old(target).jobs() + 1) as u64),
            halves,
        ),
    ensures
        final(target).jobs() == old(target).jobs() + 1,
        final(target).faults() == old(target).faults(),
        result is Err <==> fails,
        !fails && !halves ==> result->Ok_0 == payload@.len(),
        !fails && halves ==> result->Ok_0 >= 1,
        !fails && halves && payload@.len() >= 2 ==> 2 * result->Ok_0 <= payload@.len() < 2
            * result->Ok_0 + 2,
{
}

/// A job that waits for its gap, after its earliest time has come, goes out as soon as the gap
/// is over. Until then it is cancelled where that was asked for or sending stops, and fails
/// where its deadline has passed.
pub proof fn law_a_job_that_waits_for_its_gap<V: Copy>(
    scheduler: &mut TxScheduler,
    now_ms: i64,
    now_ns: u64,
    store: &mut StateStore<V>,
    action: TxAction,
    job: TxJob,
)
    requires
        old(scheduler).wf(),
        old(store).wf(),
        old(scheduler)@.released,
        old(scheduler)@.current == Some(job),
        call_ensures(
            TxScheduler::step::<V>,
            (scheduler, now_ms, now_ns, store),
            action,
        ),
    ensures
        ({
            let before = old(scheduler)@;
            let after = final(scheduler)@;
            let gap = match job.request.min_gap_ms {
                Some(gap) => gap as int * 1_000_000,
                None => 0,
            };
            let idle = match before.last_sent_ns {
                Some(sent) => if now_ns >= sent {
                    now_ns - sent
                } else {
                    0
                },
                None => 60_000_000_000 + now_ns,
            };
            let cancelled = before.stopping || before.cancelled.contains(job.id);
            let expired = job.request.deadline_unix_ms matches Some(deadline) && now_ms >= deadline;
            &&& idle >= gap ==> action == TxAction::Write(job) && after.current is None
            &&& idle < gap && (cancelled || expired) ==> action is Again && after.current is None
            &&& idle < gap && !cancelled && !expired ==> {
                &&& action == (TxAction::Sleep {
                    nanoseconds: at_most_twenty_ms(gap - idle) as u64,
                })
                &&& after.current == Some(job)
                &&& after.released
            }
            &&& after.queue == before.queue
        }),
{
}

/// What becomes of a job is told under its number: that it is being sent, with its source,
/// connection and origin; that it was cancelled; or that its time was over.
pub proof fn law_what_becomes_of_a_job_is_told<V: Copy>(
    scheduler: &mut TxScheduler,
    now_ms: i64,
    now_ns: u64,
    store: &mut StateStore<V>,
    action: TxAction,
    job: TxJob,
)
    requires
        old(scheduler).wf(),
        old(store).wf(),
        old(scheduler)@.waiting().len() > 0,
        old(scheduler)@.waiting()[0] == job,
        call_ensures(
            TxScheduler::step::<V>,
            (scheduler, now_ms, now_ns, store),
            action,
        ),
    ensures
        action is Write ==> {
            let told = final(store)@;
            &&& latest_says(told, "tx.sending"@, "jobId"@, EventDatum::Id(job.id))
            &&& latest_says(
                told,
                "tx.sending"@,
                "sourceId"@,
                EventDatum::Id(job.request.source_id),
            )
            &&& latest_says(
                told,
                "tx.sending"@,
                "sourceEpoch"@,
                EventDatum::Unsigned(old(scheduler)@.source_epoch),
            )
            &&& latest_says(
                told,
                "tx.sending"@,
                "origin"@,
                EventDatum::Text(job.request.origin@),
            )
        },
        action is Again ==> {
            let told = final(store)@;
            let cancelled = old(scheduler)@.stopping || old(scheduler)@.cancelled.contains(job.id);
            &&& cancelled ==> {
                &&& latest_says(told, "tx.cancelled"@, "jobId"@, EventDatum::Id(job.id))
                &&& latest_says(
                    told,
                    "tx.cancelled"@,
                    "sourceId"@,
                    EventDatum::Id(job.request.source_id),
                )
                &&& latest_says(
                    told,
                    "tx.cancelled"@,
                    "sourceEpoch"@,
                    EventDatum::Unsigned(old(scheduler)@.source_epoch),
                )
                &&& !final(scheduler)@.cancelled.contains(job.id)
            }
            &&& !cancelled ==> {
                &&& latest_says(told, "tx.failed"@, "jobId"@, EventDatum::Id(job.id))
                &&& latest_says(told, "tx.failed"@, "code"@, EventDatum::Text("E_TX_TIMEOUT"@))
            }
        },
        action is Sleep ==> final(store)@ == old(store)@,
{
    let before = old(scheduler)@;
    let held = before.considering();
    assert(held.current == Some(job));
    let (s, t) = (old(store)@, final(store)@);
    match action {
        TxAction::Write(_) => {
            let data = sending_data::<V>(job, held.source_epoch);
            lemma_latest_says(s, "tx.sending"@, data, t, 0);
            lemma_latest_says(s, "tx.sending"@, data, t, 1);
            lemma_latest_says(s, "tx.sending"@, data, t, 2);
            lemma_latest_says(s, "tx.sending"@, data, t, 3);
        },
        TxAction::Again => {
            if before.stopping || before.cancelled.contains(job.id) {
                let data = cancelled_data::<V>(job, held.source_epoch);
                lemma_latest_says(s, "tx.cancelled"@, data, t, 0);
                lemma_latest_says(s, "tx.cancelled"@, data, t, 1);
                lemma_latest_says(s, "tx.cancelled"@, data, t, 2);
            } else {
                let data = failed_data::<V>(job, ErrorCode::TxTimeout);
                lemma_latest_says(s, "tx.failed"@, data, t, 0);
                lemma_latest_says(s, "tx.failed"@, data, t, 1);
            }
        },
        _ => {},
    }
}

/// How a write went is told: that all was sent, and how much; or that only a part was, or
/// nothing, for which an error is noted as well.
pub proof fn law_how_a_write_went_is_told<V: Copy>(
    scheduler: &mut TxScheduler,
    job: &TxJob,
    result: Result<usize, String>,
    now_ns: u64,
    store: &mut StateStore<V>,
)
    requires
        old(scheduler).wf(),
        old(store).wf(),
        result is Ok ==> result->Ok_0 <= job.request.payload@.len(),
        call_ensures(
            TxScheduler::finish_write::<V>,
            (scheduler, job, result, now_ns, store),
            (),
        ),
    ensures
        result is Ok && result->Ok_0 == job.request.payload@.len() ==> {
            let told = final(store)@;
            &&& latest_says(told, "tx.sent"@, "jobId"@, EventDatum::Id(job.id))
            &&& latest_says(
                told,
                "tx.sent"@,
                "bytes"@,
                EventDatum::Unsigned(job.request.payload@.len() as u64),
            )
            &&& latest_says(
                told,
                "tx.sent"@,
                "sourceEpoch"@,
                EventDatum::Unsigned(old(scheduler)@.source_epoch),
            )
            &&& told.errors == old(store)@.errors
        },
        result is Ok && result->Ok_0 < job.request.payload@.len() ==> {
            let told = final(store)@;
            &&& latest_says(told, "tx.failed"@, "jobId"@, EventDatum::Id(job.id))
            &&& latest_says(
                told,
                "tx.failed"@,
                "code"@,
                EventDatum::Text("E_TX_PARTIAL_WRITE"@),
            )
            &&& latest_says(
                told,
                "tx.failed"@,
                "written"@,
                EventDatum::Unsigned(result->Ok_0 as u64),
            )
            &&& told.errors.last()@.message_key == "partial_write"@
            &&& told.errors.last()@.source_id == Some(job.request.source_id)
        },
        result is Err ==> {
            let told = final(store)@;
            &&& latest_says(told, "tx.failed"@, "jobId"@, EventDatum::Id(job.id))
            &&& latest_says(told, "tx.failed"@, "code"@, EventDatum::Text("E_DEVICE_WRITE"@))
            &&& told.errors.last()@.message_key == "device_write_failed"@
            &&& told.errors.last()@.cause == Some(result->Err_0@)
        },
{
    let (s, t) = (old(store)@, final(store)@);
    match result {
        Ok(written) => {
            if written == job.request.payload@.len() {
                let data = sent_data::<V>(*job, old(scheduler)@.source_epoch);
                lemma_latest_says(s, "tx.sent"@, data, t, 0);
                lemma_latest_says(s, "tx.sent"@, data, t, 1);
                lemma_latest_says(s, "tx.sent"@, data, t, 2);
            } else {
                let data = failed_data::<V>(*job, ErrorCode::TxPartialWrite).push(
                    ("written"@, EventDatum::Unsigned(written as u64)),
                );
                let noted = choose|noted: StoreState<V>|
                    {
                        &&& #[trigger] told_error(
                            s,
                            partial_write_error(*job, written as nat),
                            noted,
                        )
                        &&& told_fields(noted, "tx.failed"@, data, t)
                    };
                assert(told_error(s, partial_write_error(*job, written as nat), noted));
                lemma_latest_says(noted, "tx.failed"@, data, t, 0);
                lemma_latest_says(noted, "tx.failed"@, data, t, 1);
                lemma_latest_says(noted, "tx.failed"@, data, t, 2);
            }
        },
        Err(cause) => {
            let data = failed_data::<V>(*job, ErrorCode::DeviceWrite);
            let noted = choose|noted: StoreState<V>|
                {
                    &&& #[trigger] told_error(s, device_write_error(*job, cause@), noted)
                    &&& told_fields(noted, "tx.failed"@, data, t)
                };
            assert(told_error(s, device_write_error(*job, cause@), noted));
            lemma_latest_says(noted, "tx.failed"@, data, t, 0);
            lemma_latest_says(noted, "tx.failed"@, data, t, 1);
        },
    }
}

} // verus!
