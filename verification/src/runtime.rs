//! One connected source: how its bytes are handed to the recorder, the parser and the
//! terminal, and how their results are put on the wire.

use crate::envelope::{
    encode, encode_raw_payload, envelope_bytes, raw_payload, EnvelopeMeta, PayloadType,
};
use crate::error::{failure, ErrorCode, ErrorData, ToolboxError, ToolboxResult};
use crate::event::{
    told, told_error, told_fields, updated, EventData, EventDatum, EventFields, EventPayload,
    EventValue, StateStore, StoreState,
};
use crate::framer::{rule_defect, FramerState};
use crate::ident::{variant_bits, version_bits, Uuid};
use crate::math::SampleMath;
use crate::model::{
    copy_bytes, ClockAnchor, Direction, QueueDepths, RawChunk, ResetReason, SampleView, SessionSnapshot,
    SourceSnapshot, SourceStats, SourceStatus, ToolboxProject,
};
use crate::pipeline::{
    chunk_processed, frame_data, next_sequence, still_warming, Pipeline, PipelineOutput,
    PipelineState,
};
use crate::queue::{lemma_total_push, total, ByteQueue, ByteSize, OverflowPolicy, PopOutcome, QueueState};
use crate::session::{recording_failed, SessionManager};
use crate::transform::Memories;
use crate::tx::{bytes_taken, taken_bytes, write_finished, TxJob, TxScheduler, TxState};
use std::sync::Arc;
use vstd::prelude::*;

verus! {

pub const RECORDER_BYTES: usize = 16_777_216;

pub const RECORDER_ITEMS: usize = 4096;

pub const PARSER_BYTES: usize = 4_194_304;

pub const PARSER_ITEMS: usize = 2048;

pub const TERMINAL_BYTES: usize = 2_097_152;

pub const TERMINAL_ITEMS: usize = 1024;

pub const IPC_BYTES: usize = 4_194_304;

pub const IPC_ITEMS: usize = 256;

/// A batch for the recorder is written when it has this many bytes,
pub const BATCH_BYTES: usize = 65_536;

/// or has been collected for this long.
pub const BATCH_NS: u64 = 100_000_000;

/// The size of something of so many bytes in a queue.
pub open spec fn at_least_one(len: nat) -> nat {
    if len == 0 {
        1
    } else {
        len
    }
}

impl ByteSize for RawChunk {
    open spec fn size(&self) -> nat {
        at_least_one(self.bytes@.len())
    }

    fn byte_size(&self) -> (bytes: usize) {
        let len = self.bytes.len();
        if len == 0 {
            1
        } else {
            len
        }
    }
}

/// What the recorder is given: chunks, and barriers between them.
#[derive(Debug)]
pub enum RecorderItem {
    Chunk(RawChunk),
    Barrier(u64),
}

impl ByteSize for RecorderItem {
    open spec fn size(&self) -> nat {
        match self {
            RecorderItem::Chunk(chunk) => chunk.size(),
            RecorderItem::Barrier(_) => 1,
        }
    }

    fn byte_size(&self) -> (bytes: usize) {
        match self {
            RecorderItem::Chunk(chunk) => chunk.byte_size(),
            RecorderItem::Barrier(_) => 1,
        }
    }
}

/// A payload on its way to the user interface.
#[derive(Debug)]
pub struct StreamMessage {
    pub payload_type: PayloadType,
    pub payload_version: u16,
    pub monotonic_offset_ns: i64,
    pub payload: Vec<u8>,
}

impl ByteSize for StreamMessage {
    open spec fn size(&self) -> nat {
        at_least_one(self.payload@.len())
    }

    fn byte_size(&self) -> (bytes: usize) {
        let len = self.payload.len();
        if len == 0 {
            1
        } else {
            len
        }
    }
}

/// Everything that is kept where the bytes of a source are handed out.
#[verifier::ext_equal]
pub struct FanoutState {
    pub source_id: Uuid,
    pub source_epoch: u64,
    pub raw_sequence: u64,
    pub recorder: QueueState<RecorderItem>,
    pub parser: QueueState<RawChunk>,
    pub terminal: QueueState<RawChunk>,
    pub gap_generation: u64,
    pub accepting: bool,
    pub stats: SourceStats,
}

impl FanoutState {
    /// Nothing received yet, with room in all queues.
    pub open spec fn fresh(source_id: Uuid, source_epoch: u64) -> FanoutState {
        FanoutState {
            source_id,
            source_epoch,
            raw_sequence: 0,
            recorder: empty_queue(RECORDER_BYTES, RECORDER_ITEMS),
            parser: empty_queue(PARSER_BYTES, PARSER_ITEMS),
            terminal: empty_queue(TERMINAL_BYTES, TERMINAL_ITEMS),
            gap_generation: 0,
            accepting: false,
            stats: SourceStats::zero(),
        }
    }

    /// Every queue has its limits.
    pub open spec fn has_limits(self) -> bool {
        &&& self.recorder.max_bytes == RECORDER_BYTES
        &&& self.recorder.max_items == RECORDER_ITEMS
        &&& self.parser.max_bytes == PARSER_BYTES
        &&& self.parser.max_items == PARSER_ITEMS
        &&& self.terminal.max_bytes == TERMINAL_BYTES
        &&& self.terminal.max_items == TERMINAL_ITEMS
    }

    /// Every queue keeps its limits.
    pub open spec fn keeps_limits(self) -> bool {
        &&& self.recorder.within_limits()
        &&& self.parser.within_limits()
        &&& self.terminal.within_limits()
    }
}

/// The chunk that bytes become.
pub open spec fn chunk_of(
    state: FanoutState,
    direction: Direction,
    bytes: Vec<u8>,
    tx_job_id: Option<Uuid>,
    offset_ns: i64,
) -> RawChunk {
    RawChunk {
        source_id: state.source_id,
        source_epoch: state.source_epoch,
        sequence: (state.raw_sequence + 1) as u64,
        monotonic_offset_ns: offset_ns,
        direction,
        bytes: Arc::new(bytes),
        gap_before: false,
        tx_job_id,
    }
}

/// The recorder's queue after a chunk. A recording that cannot keep up is given up,
/// not thinned out.
pub open spec fn recorder_after(state: FanoutState, chunk: RawChunk) -> QueueState<RecorderItem> {
    let item = RecorderItem::Chunk(chunk);
    if state.accepting && !state.recorder.refuses(item.size(), OverflowPolicy::Reject) {
        state.recorder.pushed(item, OverflowPolicy::Reject)
    } else {
        state.recorder
    }
}

/// Whether the recorder cannot take a chunk that it should.
pub open spec fn recording_overflows(state: FanoutState, chunk: RawChunk) -> bool {
    state.accepting && state.recorder.refuses(
        RecorderItem::Chunk(chunk).size(),
        OverflowPolicy::Reject,
    )
}

/// The parser's queue after a chunk.
pub open spec fn parser_after(state: FanoutState, chunk: RawChunk) -> QueueState<RawChunk> {
    if state.parser.refuses(chunk.size(), OverflowPolicy::ClearToLowWater) {
        state.parser
    } else {
        state.parser.pushed(chunk, OverflowPolicy::ClearToLowWater)
    }
}

/// What the parser loses by a chunk: items and bytes.
pub open spec fn parser_loss(state: FanoutState, chunk: RawChunk) -> (nat, nat) {
    if state.parser.refuses(chunk.size(), OverflowPolicy::ClearToLowWater) {
        (0, 0)
    } else {
        state.parser.displaced(chunk.size(), OverflowPolicy::ClearToLowWater)
    }
}

/// The terminal's queue after a chunk.
pub open spec fn terminal_after(state: FanoutState, chunk: RawChunk) -> QueueState<RawChunk> {
    if state.terminal.refuses(chunk.size(), OverflowPolicy::DropOldest) {
        state.terminal
    } else {
        state.terminal.pushed(chunk, OverflowPolicy::DropOldest)
    }
}

/// How many bytes the terminal loses by a chunk.
pub open spec fn terminal_loss(state: FanoutState, chunk: RawChunk) -> nat {
    if state.terminal.refuses(chunk.size(), OverflowPolicy::DropOldest) {
        0
    } else {
        state.terminal.displaced(chunk.size(), OverflowPolicy::DropOldest).1
    }
}

/// The totals after a chunk.
pub open spec fn stats_after(state: FanoutState, chunk: RawChunk) -> SourceStats {
    let len = chunk.bytes@.len();
    SourceStats {
        rx_bytes: if chunk.direction == Direction::Rx {
            (state.stats.rx_bytes + len) as u64
        } else {
            state.stats.rx_bytes
        },
        tx_bytes: if chunk.direction == Direction::Tx {
            (state.stats.tx_bytes + len) as u64
        } else {
            state.stats.tx_bytes
        },
        parser_gaps: if parser_loss(state, chunk).0 > 0 {
            (state.stats.parser_gaps + 1) as u64
        } else {
            state.stats.parser_gaps
        },
        ui_dropped_bytes: (state.stats.ui_dropped_bytes + terminal_loss(state, chunk)) as u64,
        ..state.stats
    }
}

/// Everything after a chunk was handed out.
pub open spec fn handed_out(state: FanoutState, chunk: RawChunk) -> FanoutState {
    FanoutState {
        raw_sequence: chunk.sequence,
        recorder: recorder_after(state, chunk),
        parser: parser_after(state, chunk),
        terminal: terminal_after(state, chunk),
        gap_generation: if parser_loss(state, chunk).0 > 0 {
            (state.gap_generation + 1) as u64
        } else {
            state.gap_generation
        },
        accepting: state.accepting && !recording_overflows(state, chunk),
        stats: stats_after(state, chunk),
        ..state
    }
}

/// What is said of a recording that cannot keep up.
pub open spec fn backpressure_error(source_id: Uuid) -> ErrorData {
    failure(ErrorCode::RecordingBackpressure, "recorder.queue"@, "recording_queue_full"@).at(
        source_id,
    )
}

/// Whether the totals can still count a chunk of some length.
pub open spec fn has_room_for(state: FanoutState, len: nat) -> bool {
    &&& state.raw_sequence < u64::MAX
    &&& state.gap_generation < u64::MAX
    &&& state.stats.parser_gaps < u64::MAX
    &&& state.stats.rx_bytes + len <= u64::MAX
    &&& state.stats.tx_bytes + len <= u64::MAX
    &&& state.stats.ui_dropped_bytes + TERMINAL_BYTES <= u64::MAX
}

/// What has to be told after bytes were handed out.
#[derive(Debug)]
pub struct FanoutReport {
    pub source_id: Uuid,
    pub recording_failed: Option<ToolboxError>,
    pub parser_dropped_bytes: Option<u64>,
}

/// Nothing has to be told.
pub open spec fn nothing_to_tell(report: FanoutReport) -> bool {
    report.recording_failed is None && report.parser_dropped_bytes is None
}

/// `report` is what has to be told after a chunk was handed out.
pub open spec fn reports(report: FanoutReport, state: FanoutState, chunk: RawChunk) -> bool {
    &&& report.source_id == state.source_id
    &&& match report.recording_failed {
        Some(error) => recording_overflows(state, chunk) && error@ == backpressure_error(
            state.source_id,
        ),
        None => !recording_overflows(state, chunk),
    }
    &&& match report.parser_dropped_bytes {
        Some(bytes) => parser_loss(state, chunk).0 > 0 && bytes == parser_loss(state, chunk).1,
        None => parser_loss(state, chunk).0 == 0,
    }
}

/// Hands the bytes of a source out to those who need them.
pub struct Fanout {
    source_id: Uuid,
    source_epoch: u64,
    raw_sequence: u64,
    recorder: ByteQueue<RecorderItem>,
    parser: ByteQueue<RawChunk>,
    terminal: ByteQueue<RawChunk>,
    parser_gap_generation: u64,
    recording_accepting: bool,
    stats: SourceStats,
}

impl View for Fanout {
    type V = FanoutState;

    closed spec fn view(&self) -> FanoutState {
        FanoutState {
            source_id: self.source_id,
            source_epoch: self.source_epoch,
            raw_sequence: self.raw_sequence,
            recorder: self.recorder@,
            parser: self.parser@,
            terminal: self.terminal@,
            gap_generation: self.parser_gap_generation,
            accepting: self.recording_accepting,
            stats: self.stats,
        }
    }
}

/// An empty, open queue with limits.
pub open spec fn empty_queue<T>(max_bytes: usize, max_items: usize) -> QueueState<T> {
    QueueState {
        items: Seq::empty(),
        closed: false,
        max_bytes: max_bytes as nat,
        max_items: max_items as nat,
    }
}

impl Fanout {
    /// The queues are well formed and have their limits.
    pub closed spec fn wf(&self) -> bool {
        &&& self.recorder.wf()
        &&& self.parser.wf()
        &&& self.terminal.wf()
        &&& self@.has_limits()
    }

    /// The queues of a well-formed fanout have their limits and keep them.
    pub proof fn lemma_limits(&self)
        requires
            self.wf(),
        ensures
            self@.has_limits(),
            self@.keeps_limits(),
    {
        self.recorder.lemma_within_limits();
        self.parser.lemma_within_limits();
        self.terminal.lemma_within_limits();
    }

    /// Nothing received, and nothing recorded yet.
    pub fn new(source_id: Uuid, source_epoch: u64) -> (fanout: Fanout)
        ensures
            fanout.wf(),
            fanout@ == FanoutState::fresh(source_id, source_epoch),
    {
        Fanout {
            source_id,
            source_epoch,
            raw_sequence: 0,
            recorder: ByteQueue::new(RECORDER_BYTES, RECORDER_ITEMS),
            parser: ByteQueue::new(PARSER_BYTES, PARSER_ITEMS),
            terminal: ByteQueue::new(TERMINAL_BYTES, TERMINAL_ITEMS),
            parser_gap_generation: 0,
            recording_accepting: false,
            stats: SourceStats::default(),
        }
    }

    /// Whether the totals can still count a chunk of some length.
    pub fn has_room(&self, len: usize) -> (room: bool)
        ensures
            room == has_room_for(self@, len as nat),
    {
        let len = len as u64;
        self.raw_sequence < u64::MAX && self.parser_gap_generation < u64::MAX
            && self.stats.parser_gaps < u64::MAX && self.stats.rx_bytes <= u64::MAX - len
            && self.stats.tx_bytes <= u64::MAX - len && self.stats.ui_dropped_bytes <= u64::MAX
            - TERMINAL_BYTES as u64
    }

    /// Hands bytes out. Each consumer is served as its own queue allows: the recorder
    /// gets everything or gives up, the parser loses the oldest down to its low-water
    /// mark, and the terminal loses the oldest.
    pub fn push(
        &mut self,
        direction: Direction,
        bytes: Vec<u8>,
        tx_job_id: Option<Uuid>,
        monotonic_offset_ns: i64,
    ) -> (report: FanoutReport)
        requires
            old(self).wf(),
            has_room_for(old(self)@, bytes@.len()),
        ensures
            final(self).wf(),
            if bytes@.len() == 0 {
                &&& final(self)@ == old(self)@
                &&& report.source_id == old(self)@.source_id
                &&& nothing_to_tell(report)
            } else {
                let chunk = chunk_of(
                    old(self)@,
                    direction,
                    bytes,
                    tx_job_id,
                    monotonic_offset_ns,
                );
                &&& final(self)@ == handed_out(old(self)@, chunk)
                &&& reports(report, old(self)@, chunk)
            },
    {
        let mut report = FanoutReport {
            source_id: self.source_id,
            recording_failed: None,
            parser_dropped_bytes: None,
        };
        if bytes.len() == 0 {
            return report;
        }
        let ghost before = self@;
        let len = bytes.len() as u64;
        self.raw_sequence = self.raw_sequence + 1;
        let chunk = RawChunk {
            source_id: self.source_id,
            source_epoch: self.source_epoch,
            sequence: self.raw_sequence,
            monotonic_offset_ns,
            direction,
            bytes: Arc::new(bytes),
            gap_before: false,
            tx_job_id,
        };
        assert(chunk == chunk_of(before, direction, bytes, tx_job_id, monotonic_offset_ns));
        match direction {
            Direction::Rx => {
                self.stats.rx_bytes = self.stats.rx_bytes + len;
            },
            Direction::Tx => {
                self.stats.tx_bytes = self.stats.tx_bytes + len;
            },
        }
        if self.recording_accepting {
            if self.recorder.push(RecorderItem::Chunk(chunk.clone()), OverflowPolicy::Reject).is_err() {
                self.recording_accepting = false;
                report.recording_failed =
                Some(
                    ToolboxError::new(
                        ErrorCode::RecordingBackpressure,
                        "recorder.queue",
                        "recording_queue_full",
                    ).source(self.source_id),
                );
            }
        }
        if let Ok(outcome) = self.parser.push(chunk.clone(), OverflowPolicy::ClearToLowWater) {
            if outcome.dropped_items > 0 {
                self.parser_gap_generation = self.parser_gap_generation + 1;
                self.stats.parser_gaps = self.stats.parser_gaps + 1;
                report.parser_dropped_bytes = Some(outcome.dropped_bytes as u64);
            }
        }
        proof {
            self.terminal.lemma_within_limits();
        }
        let ghost told = chunk;
        assert(total(self.terminal@.items) <= TERMINAL_BYTES);
        if let Ok(outcome) = self.terminal.push(chunk, OverflowPolicy::DropOldest) {
            if outcome.dropped_bytes > 0 {
                self.stats.ui_dropped_bytes = self.stats.ui_dropped_bytes
                    + outcome.dropped_bytes as u64;
            }
        }
        assert(self@ =~= handed_out(before, told));
        report
    }

    /// Puts a barrier behind everything that waits for the recorder.
    pub fn push_barrier(&mut self, ticket: u64) -> (queued: bool)
        requires
            old(self).wf(),
        ensures
            final(self).wf(),
            queued == !old(self)@.recorder.refuses(1, OverflowPolicy::Reject),
            final(self)@ == if queued {
                (FanoutState {
                    recorder: old(self)@.recorder.pushed(
                        RecorderItem::Barrier(ticket),
                        OverflowPolicy::Reject,
                    ),
                    ..old(self)@
                })
            } else {
                old(self)@
            },
    {
        let queued = self.recorder.push(
            RecorderItem::Barrier(ticket),
            OverflowPolicy::Reject,
        ).is_ok();
        assert(RecorderItem::Barrier(ticket).size() == 1);
        queued
    }

    /// Starts or stops handing chunks to the recorder.
    pub fn set_recording(&mut self, enabled: bool)
        requires
            old(self).wf(),
        ensures
            final(self).wf(),
            final(self)@ == (FanoutState { accepting: enabled, ..old(self)@ }),
    {
        self.recording_accepting = enabled;
    }

    /// The oldest item that waits for the recorder.
    pub fn take_recorder(&mut self, expired: bool) -> (outcome: PopOutcome<RecorderItem>)
        requires
            old(self).wf(),
        ensures
            final(self).wf(),
            final(self)@ == (FanoutState { recorder: final(self)@.recorder, ..old(self)@ }),
            popped_from(old(self)@.recorder, expired, outcome, final(self)@.recorder),
    {
        self.recorder.pop_timeout(expired)
    }

    /// The oldest chunk that waits for the parser.
    pub fn take_parser(&mut self, expired: bool) -> (outcome: PopOutcome<RawChunk>)
        requires
            old(self).wf(),
        ensures
            final(self).wf(),
            final(self)@ == (FanoutState { parser: final(self)@.parser, ..old(self)@ }),
            popped_from(old(self)@.parser, expired, outcome, final(self)@.parser),
    {
        self.parser.pop_timeout(expired)
    }

    /// The oldest chunk that waits for the terminal.
    pub fn take_terminal(&mut self, expired: bool) -> (outcome: PopOutcome<RawChunk>)
        requires
            old(self).wf(),
        ensures
            final(self).wf(),
            final(self)@ == (FanoutState { terminal: final(self)@.terminal, ..old(self)@ }),
            popped_from(old(self)@.terminal, expired, outcome, final(self)@.terminal),
    {
        self.terminal.pop_timeout(expired)
    }

    /// How often the parser has lost chunks.
    pub fn gap_generation(&self) -> (generation: u64)
        ensures
            generation == self@.gap_generation,
    {
        self.parser_gap_generation
    }

    /// Counts frames that were parsed.
    pub fn count_parsed(&mut self, frames: usize, checksum_failures: u64)
        requires
            old(self).wf(),
            old(self)@.stats.parsed_frames + frames <= u64::MAX,
            old(self)@.stats.checksum_failures + checksum_failures <= u64::MAX,
        ensures
            final(self).wf(),
            final(self)@ == (FanoutState {
                stats: SourceStats {
                    parsed_frames: (old(self)@.stats.parsed_frames + frames) as u64,
                    checksum_failures: (old(self)@.stats.checksum_failures
                        + checksum_failures) as u64,
                    ..old(self)@.stats
                },
                ..old(self)@
            }),
    {
        self.stats.parsed_frames = self.stats.parsed_frames + frames as u64;
        self.stats.checksum_failures = self.stats.checksum_failures + checksum_failures;
    }

    /// Counts batches that the user interface has lost.
    pub fn count_dropped_batches(&mut self, batches: usize)
        requires
            old(self).wf(),
            old(self)@.stats.ui_dropped_batches + batches <= u64::MAX,
        ensures
            final(self).wf(),
            final(self)@ == (FanoutState {
                stats: SourceStats {
                    ui_dropped_batches: (old(self)@.stats.ui_dropped_batches + batches) as u64,
                    ..old(self)@.stats
                },
                ..old(self)@
            }),
    {
        self.stats.ui_dropped_batches = self.stats.ui_dropped_batches + batches as u64;
    }

    /// The totals so far.
    pub fn stats(&self) -> (stats: SourceStats)
        ensures
            stats == self@.stats,
    {
        self.stats
    }

    /// How many bytes wait for the recorder, the parser and the terminal.
    pub fn depths(&self) -> (depths: (usize, usize, usize))
        requires
            self.wf(),
        ensures
            depths.0 == total(self@.recorder.items),
            depths.1 == total(self@.parser.items),
            depths.2 == total(self@.terminal.items),
    {
        (self.recorder.depth_bytes(), self.parser.depth_bytes(), self.terminal.depth_bytes())
    }

    /// Takes nothing any more; what waits can still be taken.
    pub fn close(&mut self)
        requires
            old(self).wf(),
        ensures
            final(self).wf(),
            final(self)@ == (FanoutState {
                recorder: QueueState { closed: true, ..old(self)@.recorder },
                parser: QueueState { closed: true, ..old(self)@.parser },
                terminal: QueueState { closed: true, ..old(self)@.terminal },
                ..old(self)@
            }),
    {
        self.recorder.close();
        self.parser.close();
        self.terminal.close();
    }
}

/// What a waiting consumer of a queue is told, and what becomes of the queue.
pub open spec fn popped_from<T: ByteSize>(
    before: QueueState<T>,
    expired: bool,
    outcome: PopOutcome<T>,
    after: QueueState<T>,
) -> bool {
    match outcome {
        PopOutcome::Item(item) => before.items.len() > 0 && item == before.items[0] && after
            == before.popped(),
        PopOutcome::Ended => before.items.len() == 0 && (before.closed || expired) && after
            == before,
        PopOutcome::Wait => before.items.len() == 0 && !before.closed && !expired && after
            == before,
    }
}

/// What an event says of chunks that the parser has lost.
pub open spec fn parser_gap_data<V>(source_id: Uuid, dropped_bytes: u64) -> EventData<V> {
    seq![
        ("sourceId"@, EventDatum::Id(source_id)),
        ("droppedBytes"@, EventDatum::Unsigned(dropped_bytes)),
    ]
}

/// What becomes of the session and of the application's state when a report is told.
pub open spec fn report_told<V>(
    report: FanoutReport,
    session: SessionSnapshot,
    store: StoreState<V>,
    session_after: SessionSnapshot,
    store_after: StoreState<V>,
) -> bool {
    exists|between: StoreState<V>|
        {
            &&& #[trigger] failure_told(report, session, store, session_after, between)
            &&& match report.parser_dropped_bytes {
                Some(bytes) => told_fields(
                    between,
                    "diagnostic.parserGap"@,
                    parser_gap_data(report.source_id, bytes),
                    store_after,
                ),
                None => store_after == between,
            }
        }
}

/// What becomes of the session and of the application's state when a recording that
/// could not keep up is told of.
pub open spec fn failure_told<V>(
    report: FanoutReport,
    session: SessionSnapshot,
    store: StoreState<V>,
    session_after: SessionSnapshot,
    store_after: StoreState<V>,
) -> bool {
    match report.recording_failed {
        Some(error) => recording_failed(session, error@, store, session_after, store_after),
        None => session_after == session && store_after == store,
    }
}

impl FanoutReport {
    /// Whether nothing has to be told.
    pub fn is_quiet(&self) -> (quiet: bool)
        ensures
            quiet == nothing_to_tell(*self),
    {
        self.recording_failed.is_none() && self.parser_dropped_bytes.is_none()
    }

    /// Tells what has to be told.
    pub fn publish<V: Copy>(&self, session: &mut SessionManager, state: &mut StateStore<V>)
        requires
            old(state).wf(),
        ensures
            final(state).wf(),
            final(session).recorder == old(session).recorder,
            report_told(
                *self,
                old(session).current,
                old(state)@,
                final(session).current,
                final(state)@,
            ),
    {
        if let Some(error) = &self.recording_failed {
            session.fail_recording(error, state);
        }
        let ghost between = state@;
        assert(failure_told(
            *self,
            old(session).current,
            old(state)@,
            session.current,
            between,
        ));
        if let Some(bytes) = self.parser_dropped_bytes {
            let fields = EventFields::new().with("sourceId", EventValue::Id(self.source_id)).with(
                "droppedBytes",
                EventValue::Unsigned(bytes),
            );
            assert(fields@ =~= parser_gap_data(self.source_id, bytes));
            state.emit_fields("diagnostic.parserGap", fields);
        }
    }
}

/// No consumer is affected by how far another one lags behind: what each one's queue
/// becomes depends on that queue and the chunk alone.
pub proof fn law_consumers_do_not_disturb_each_other(
    left: FanoutState,
    right: FanoutState,
    chunk: RawChunk,
)
    ensures
        left.parser == right.parser ==> handed_out(left, chunk).parser == handed_out(
            right,
            chunk,
        ).parser,
        left.terminal == right.terminal ==> handed_out(left, chunk).terminal == handed_out(
            right,
            chunk,
        ).terminal,
        left.recorder == right.recorder && left.accepting == right.accepting ==> handed_out(
            left,
            chunk,
        ).recorder == handed_out(right, chunk).recorder && handed_out(left, chunk).accepting
            == handed_out(right, chunk).accepting,
{
}

/// Chunks that were handed out one after the other, with what was kept between them.
pub open spec fn handed_out_in_turn(states: Seq<FanoutState>, chunks: Seq<RawChunk>) -> bool {
    &&& states.len() == chunks.len() + 1
    &&& forall|i: int|
        #![trigger chunks[i]]
        0 <= i < chunks.len() ==> {
            &&& chunks[i].source_id == states[i].source_id
            &&& chunks[i].source_epoch == states[i].source_epoch
            &&& chunks[i].sequence == states[i].raw_sequence + 1
            &&& states[i + 1] == handed_out(states[i], chunks[i])
        }
}

/// No two chunks of one connection are the same by source, connection and number: the
/// numbers are consecutive in the order in which the chunks were handed out.
pub proof fn law_chunks_are_told_apart(states: Seq<FanoutState>, chunks: Seq<RawChunk>, i: int)
    requires
        handed_out_in_turn(states, chunks),
        0 <= i < chunks.len(),
    ensures
        chunks[i].source_id == states[0].source_id,
        chunks[i].source_epoch == states[0].source_epoch,
        chunks[i].sequence == states[0].raw_sequence + 1 + i,
    decreases i,
{
    let here = chunks[i];
    if i > 0 {
        law_chunks_are_told_apart(states, chunks, i - 1);
    }
}

/// A recording has no holes: as long as chunks are accepted, each one stands behind
/// all that were accepted before it; the first one that does not fit ends acceptance.
pub proof fn law_a_recording_has_no_holes(state: FanoutState, chunk: RawChunk)
    requires
        state.accepting,
    ensures
        handed_out(state, chunk).accepting ==> handed_out(state, chunk).recorder.items
            == state.recorder.items.push(RecorderItem::Chunk(chunk)),
        !handed_out(state, chunk).accepting ==> handed_out(state, chunk).recorder
            == state.recorder,
{
}

/// What the parser has lost is noticed: whenever chunks were dropped before it, the
/// gap generation has moved on.
pub proof fn law_lost_chunks_are_noticed(state: FanoutState, chunk: RawChunk)
    requires
        state.gap_generation < u64::MAX,
        !state.parser.refuses(chunk.size(), OverflowPolicy::ClearToLowWater),
        handed_out(state, chunk).parser.items != state.parser.items.push(chunk),
    ensures
        handed_out(state, chunk).gap_generation == state.gap_generation + 1,
{
    let size = chunk.size();
    crate::queue::law_only_the_oldest_leave(
        state.parser,
        size,
        OverflowPolicy::ClearToLowWater,
    );
    let kept = state.parser.kept(size, OverflowPolicy::ClearToLowWater);
    if kept.len() == state.parser.items.len() {
        assert(kept =~= state.parser.items);
    }
}

/// The chunks among items.
pub open spec fn chunks_among(items: Seq<RecorderItem>) -> Seq<RawChunk>
    decreases items.len(),
{
    if items.len() == 0 {
        Seq::empty()
    } else {
        match items.last() {
            RecorderItem::Chunk(chunk) => chunks_among(items.drop_last()).push(chunk),
            RecorderItem::Barrier(_) => chunks_among(items.drop_last()),
        }
    }
}

/// The barriers among items.
pub open spec fn barriers_among(items: Seq<RecorderItem>) -> Seq<u64>
    decreases items.len(),
{
    if items.len() == 0 {
        Seq::empty()
    } else {
        match items.last() {
            RecorderItem::Chunk(_) => barriers_among(items.drop_last()),
            RecorderItem::Barrier(ticket) => barriers_among(items.drop_last()).push(ticket),
        }
    }
}

/// What the recorder writes at once, and which barriers it has then passed.
pub struct RecorderBatch {
    pub chunks: Vec<RawChunk>,
    pub barriers: Vec<u64>,
    pub bytes: usize,
    pub taken: Ghost<Seq<RecorderItem>>,
}

impl RecorderBatch {
    /// The batch holds the chunks and the barriers of the items that were taken, in
    /// order.
    pub open spec fn wf(&self) -> bool {
        &&& self.chunks@ == chunks_among(self.taken@)
        &&& self.barriers@ == barriers_among(self.taken@)
        &&& self.bytes == total(self.chunks@)
    }

    /// A batch with nothing in it.
    pub fn new() -> (batch: RecorderBatch)
        ensures
            batch.wf(),
            batch.taken@ == Seq::<RecorderItem>::empty(),
    {
        RecorderBatch {
            chunks: Vec::new(),
            barriers: Vec::new(),
            bytes: 0,
            taken: Ghost(Seq::empty()),
        }
    }

    /// Whether more items should be taken, after collecting for some time.
    pub fn wants_more(&self, elapsed_ns: u64) -> (more: bool)
        ensures
            more == (self.bytes < BATCH_BYTES && elapsed_ns < BATCH_NS),
    {
        self.bytes < BATCH_BYTES && elapsed_ns < BATCH_NS
    }

    /// Takes one more item.
    pub fn take(&mut self, item: RecorderItem)
        requires
            old(self).wf(),
            old(self).bytes + item.size() <= usize::MAX,
        ensures
            final(self).wf(),
            final(self).taken@ == old(self).taken@.push(item),
    {
        let ghost items = self.taken@.push(item);
        assert(items.drop_last() =~= self.taken@);
        match item {
            RecorderItem::Chunk(chunk) => {
                proof {
                    lemma_total_push(self.chunks@, chunk);
                }
                self.bytes = self.bytes + chunk.byte_size();
                self.chunks.push(chunk);
            },
            RecorderItem::Barrier(ticket) => {
                self.barriers.push(ticket);
            },
        }
        self.taken = Ghost(items);
    }
}

/// A barrier is passed only together with everything that was queued before it: each
/// chunk before a barrier among the items taken is among the chunks of the batch.
pub proof fn law_a_barrier_follows_its_chunks(items: Seq<RecorderItem>, barrier: int, chunk: int)
    requires
        0 <= chunk < barrier < items.len(),
        items[barrier] is Barrier,
        items[chunk] is Chunk,
    ensures
        barriers_among(items).contains(items[barrier]->Barrier_0),
        chunks_among(items).contains(items[chunk]->Chunk_0),
    decreases items.len(),
{
    lemma_among(items, barrier);
    lemma_among(items, chunk);
}

proof fn lemma_among(items: Seq<RecorderItem>, i: int)
    requires
        0 <= i < items.len(),
    ensures
        items[i] matches RecorderItem::Chunk(chunk) ==> chunks_among(items).contains(chunk),
        items[i] matches RecorderItem::Barrier(ticket) ==> barriers_among(items).contains(ticket),
    decreases items.len(),
{
    let head = items.drop_last();
    if i == items.len() - 1 {
        match items.last() {
            RecorderItem::Chunk(chunk) => {
                assert(chunks_among(items).last() == chunk);
            },
            RecorderItem::Barrier(ticket) => {
                assert(barriers_among(items).last() == ticket);
            },
        }
    } else {
        lemma_among(head, i);
        assert(head[i] == items[i]);
        match items[i] {
            RecorderItem::Chunk(chunk) => {
                let k = choose|k: int|
                    0 <= k < chunks_among(head).len() && chunks_among(head)[k] == chunk;
                assert(chunks_among(items)[k] == chunk);
            },
            RecorderItem::Barrier(ticket) => {
                let k = choose|k: int|
                    0 <= k < barriers_among(head).len() && barriers_among(head)[k] == ticket;
                assert(barriers_among(items)[k] == ticket);
            },
        }
    }
}

/// `message` shows a chunk in the terminal.
pub open spec fn shows_chunk(message: StreamMessage, chunk: RawChunk) -> bool {
    &&& message.payload_type == PayloadType::RawBatch
    &&& message.payload_version == 1
    &&& message.monotonic_offset_ns == chunk.monotonic_offset_ns
    &&& message.payload@ == raw_payload(chunk.direction, chunk.sequence, chunk.bytes@)
}

/// What the terminal is shown of a chunk: its bytes and its direction.
pub fn terminal_message(chunk: &RawChunk) -> (message: StreamMessage)
    ensures
        shows_chunk(message, *chunk),
{
    StreamMessage {
        payload_type: PayloadType::RawBatch,
        payload_version: 1,
        monotonic_offset_ns: chunk.monotonic_offset_ns,
        payload: encode_raw_payload(chunk.direction, chunk.sequence, chunk.bytes.as_slice()),
    }
}

/// Whether anything went wrong with a chunk.
pub open spec fn has_diagnostics<V>(output: PipelineOutput<V>) -> bool {
    ||| output.oversize_frames > 0
    ||| output.resyncs > 0
    ||| output.checksum_failures > 0
    ||| output.parse_failures > 0
}

/// Which batches are sent of what came of a chunk, in order.
pub open spec fn batches_of<V>(output: PipelineOutput<V>) -> Seq<PayloadType> {
    let samples = if output.samples@.len() > 0 {
        seq![PayloadType::SampleBatch]
    } else {
        Seq::empty()
    };
    let packets = if output.frames@.len() > 0 {
        seq![PayloadType::PacketBatch]
    } else {
        Seq::empty()
    };
    let diagnostics = if has_diagnostics(output) {
        seq![PayloadType::DiagnosticBatch]
    } else {
        Seq::empty()
    };
    samples + packets + diagnostics
}

/// Which batches are sent of what came of a chunk, in order.
pub fn batches<V>(output: &PipelineOutput<V>) -> (types: Vec<PayloadType>)
    ensures
        types@ == batches_of(*output),
{
    let mut types: Vec<PayloadType> = Vec::new();
    if output.samples.len() > 0 {
        types.push(PayloadType::SampleBatch);
    }
    if output.frames.len() > 0 {
        types.push(PayloadType::PacketBatch);
    }
    if output.oversize_frames > 0 || output.resyncs > 0 || output.checksum_failures > 0
        || output.parse_failures > 0 {
        types.push(PayloadType::DiagnosticBatch);
    }
    assert(types@ =~= batches_of(*output));
    types
}

/// The values that samples give to their channels.
pub open spec fn values_of<V>(samples: Seq<SampleView<V>>) -> Seq<(Uuid, V)> {
    samples.map_values(|sample: SampleView<V>| (sample.channel_id, sample.value))
}

/// The values that samples give to their channels.
pub fn sample_values<V: Copy>(samples: &Vec<SampleView<V>>) -> (values: Vec<(Uuid, V)>)
    ensures
        values@ == values_of(samples@),
{
    let mut values: Vec<(Uuid, V)> = Vec::new();
    let mut i: usize = 0;
    while i < samples.len()
        invariant
            i <= samples@.len(),
            values@ == values_of(samples@.take(i as int)),
        decreases samples@.len() - i,
    {
        values.push((samples[i].channel_id, samples[i].value));
        assert(values@ =~= values_of(samples@.take(i + 1)));
        i += 1;
    }
    assert(samples@.take(i as int) =~= samples@);
    values
}

/// Parses the chunks of one connection.
pub struct ParserWorker<V> {
    pipeline: Pipeline<V>,
    seen_gap: u64,
}

/// A chunk as it goes into a pipeline: after a gap if it was so marked, or if chunks
/// were lost since the last one.
pub open spec fn marked(chunk: RawChunk, seen_gap: u64, current_gap: u64) -> RawChunk {
    RawChunk { gap_before: chunk.gap_before || current_gap != seen_gap, ..chunk }
}

impl<V: Copy> ParserWorker<V> {
    /// The project that is parsed for.
    pub closed spec fn project(&self) -> ToolboxProject<V> {
        self.pipeline.project()
    }

    /// What is kept of frames between chunks.
    pub closed spec fn framing(&self) -> FramerState {
        self.pipeline.framing()
    }

    /// What else is kept between chunks.
    pub closed spec fn state(&self) -> PipelineState<V> {
        self.pipeline.state()
    }

    /// Why everything was last forgotten.
    pub closed spec fn last_reset(&self) -> Option<ResetReason> {
        self.pipeline.last_reset()
    }

    /// Whether filters have seen no value since they had to warm up.
    pub closed spec fn warming(&self) -> bool {
        self.pipeline.warming()
    }

    /// Which gap generation the last chunk was parsed under.
    pub closed spec fn seen_gap(&self) -> u64 {
        self.seen_gap
    }

    /// The pipeline is well formed.
    pub closed spec fn wf(&self) -> bool {
        self.pipeline.wf()
    }

    /// A parser for a project, unless its framing rule is invalid.
    pub fn new(project: Arc<ToolboxProject<V>>, current_gap: u64) -> (result: ToolboxResult<
        ParserWorker<V>,
    >)
        ensures
            match result {
                Ok(worker) => {
                    &&& rule_defect(project.framer@) is None
                    &&& worker.wf()
                    &&& worker.project() == *project
                    &&& worker.framing() == FramerState::fresh()
                    &&& worker.state() == (PipelineState {
                        last_sequence: 0,
                        memories: Memories::<V>::empty(),
                    })
                    &&& worker.last_reset() == Some(ResetReason::Connect)
                    &&& !worker.warming()
                    &&& worker.seen_gap() == current_gap
                },
                Err(error) => {
                    &&& rule_defect(project.framer@) matches Some(message)
                    &&& error@ == failure(
                        ErrorCode::ProjectSchemaInvalid,
                        "pipeline.new"@,
                        "framer_invalid"@,
                    ).because(message)
                },
            },
    {
        match Pipeline::new(project) {
            Ok(pipeline) => {
                let mut pipeline = pipeline;
                pipeline.reset(ResetReason::Connect);
                Ok(ParserWorker { pipeline, seen_gap: current_gap })
            },
            Err(error) => Err(error),
        }
    }

    /// Parses one chunk. If chunks were lost since the last one, it comes after a gap.
    pub fn parse<M: SampleMath<V>>(&mut self, chunk: RawChunk, current_gap: u64, math: &M) -> (output:
        PipelineOutput<V>)
        requires
            old(self).wf(),
        ensures
            final(self).wf(),
            final(self).project() == old(self).project(),
            final(self).seen_gap() == current_gap,
            chunk_processed(
                math,
                old(self).project(),
                marked(chunk, old(self).seen_gap(), current_gap),
                old(self).framing(),
                old(self).state(),
                output,
                final(self).framing(),
                final(self).state(),
            ),
            final(self).last_reset() == if marked(
                chunk,
                old(self).seen_gap(),
                current_gap,
            ).gap_before {
                Some(ResetReason::StreamGap)
            } else {
                old(self).last_reset()
            },
            final(self).warming() == still_warming(
                old(self).project(),
                marked(chunk, old(self).seen_gap(), current_gap),
                old(self).warming(),
                frame_data(output.frames@),
            ),
    {
        let gap_before = chunk.gap_before || current_gap != self.seen_gap;
        let chunk = RawChunk { gap_before, ..chunk };
        self.seen_gap = current_gap;
        self.pipeline.process(&chunk, math)
    }

    /// Forgets everything at the end of the connection.
    pub fn finish(&mut self)
        requires
            old(self).wf(),
        ensures
            final(self).wf(),
            final(self).project() == old(self).project(),
            final(self).framing() == FramerState::fresh(),
            final(self).state() == (PipelineState {
                memories: Memories::<V>::empty(),
                ..old(self).state()
            }),
            final(self).last_reset() == Some(ResetReason::Disconnect),
            !final(self).warming(),
            final(self).seen_gap() == old(self).seen_gap(),
    {
        self.pipeline.reset(ResetReason::Disconnect);
    }
}

/// Numbers the envelopes of one connection.
pub struct StreamSequencer {
    pub source_id: Uuid,
    pub source_epoch: u64,
    pub last_sequence: u64,
}

impl StreamSequencer {
    /// No envelope yet.
    pub fn new(source_id: Uuid, source_epoch: u64) -> (sequencer: StreamSequencer)
        ensures
            sequencer == (StreamSequencer { source_id, source_epoch, last_sequence: 0 }),
    {
        StreamSequencer { source_id, source_epoch, last_sequence: 0 }
    }

    /// The next envelope.
    pub fn envelope(&mut self, message: &StreamMessage) -> (bytes: Vec<u8>)
        ensures
            *final(self) == (StreamSequencer {
                last_sequence: next_sequence(old(self).last_sequence),
                ..*old(self)
            }),
            bytes@ == envelope_bytes(
                EnvelopeMeta {
                    payload_type: message.payload_type,
                    payload_version: message.payload_version,
                    source_id: old(self).source_id,
                    source_epoch: old(self).source_epoch,
                    sequence: next_sequence(old(self).last_sequence),
                    monotonic_offset_ns: message.monotonic_offset_ns,
                },
                message.payload@,
            ),
    {
        self.last_sequence = self.last_sequence.saturating_add(1);
        encode(
            EnvelopeMeta {
                payload_type: message.payload_type,
                payload_version: message.payload_version,
                source_id: self.source_id,
                source_epoch: self.source_epoch,
                sequence: self.last_sequence,
                monotonic_offset_ns: message.monotonic_offset_ns,
            },
            message.payload.as_slice(),
        )
    }
}

/// One connection of a source.
pub struct SourceRuntime {
    pub base: SourceSnapshot,
    pub fanout: Fanout,
    pub ipc: ByteQueue<StreamMessage>,
    pub stopped: bool,
    pub tx: TxScheduler,
}

/// A queue with one more message, in place of the oldest where there is no room.
pub open spec fn with_message(
    ipc: QueueState<StreamMessage>,
    message: StreamMessage,
) -> QueueState<StreamMessage> {
    if ipc.refuses(message.size(), OverflowPolicy::DropOldest) {
        ipc
    } else {
        ipc.pushed(message, OverflowPolicy::DropOldest)
    }
}

/// How many messages give way to one more.
pub open spec fn displaced_by(ipc: QueueState<StreamMessage>, message: StreamMessage) -> nat {
    if ipc.refuses(message.size(), OverflowPolicy::DropOldest) {
        0
    } else {
        ipc.displaced(message.size(), OverflowPolicy::DropOldest).0
    }
}

/// A queue with messages one after the other.
pub open spec fn with_messages(
    ipc: QueueState<StreamMessage>,
    messages: Seq<StreamMessage>,
) -> QueueState<StreamMessage>
    decreases messages.len(),
{
    if messages.len() == 0 {
        ipc
    } else {
        with_message(with_messages(ipc, messages.drop_last()), messages.last())
    }
}

/// `message` carries a payload of a type.
pub open spec fn carries(
    message: StreamMessage,
    payload_type: PayloadType,
    payload: Vec<u8>,
    monotonic_offset_ns: i64,
) -> bool {
    &&& message.payload_type == payload_type
    &&& message.payload_version == 1
    &&& message.monotonic_offset_ns == monotonic_offset_ns
    &&& message.payload@ == payload@
}

/// `messages` carry the batches of what came of a chunk, in order.
pub open spec fn carry<V>(
    messages: Seq<StreamMessage>,
    output: PipelineOutput<V>,
    payloads: Seq<Vec<u8>>,
    monotonic_offset_ns: i64,
) -> bool {
    &&& messages.len() == batches_of(output).len()
    &&& forall|i: int|
        0 <= i < messages.len() ==> carries(
            #[trigger] messages[i],
            batches_of(output)[i],
            payloads[i],
            monotonic_offset_ns,
        )
}

/// `base` describes a connection that was just opened.
pub open spec fn just_connected<V>(
    base: SourceSnapshot,
    project: ToolboxProject<V>,
    source_epoch: u64,
    transport: String,
    endpoint: String,
    clock_anchor: ClockAnchor,
) -> bool {
    &&& base.epoch_id matches Some(epoch_id)
    &&& version_bits(epoch_id.value) == 7
    &&& variant_bits(epoch_id.value) == 2
    &&& base == (SourceSnapshot {
        source_id: project.source.id,
        name: project.source.name,
        status: SourceStatus::Connected,
        transport,
        endpoint,
        source_epoch,
        epoch_id: Some(epoch_id),
        clock_anchor: Some(clock_anchor),
        queue_depths: QueueDepths::none_spec(),
        stats: SourceStats::zero(),
    })
}

/// Nothing has passed through a connection yet, and everything may.
pub open spec fn nothing_passed(
    runtime: SourceRuntime,
    source_id: Uuid,
    source_epoch: u64,
) -> bool {
    &&& runtime.fanout@ == FanoutState::fresh(source_id, source_epoch)
    &&& runtime.ipc@ == empty_queue::<StreamMessage>(IPC_BYTES, IPC_ITEMS)
    &&& runtime.tx@ == TxState::fresh(source_epoch)
    &&& !runtime.stopped
}

impl SourceRuntime {
    /// All queues are well formed.
    pub open spec fn wf(&self) -> bool {
        &&& self.fanout.wf()
        &&& self.ipc.wf()
        &&& self.tx.wf()
        &&& self.fanout@.source_id == self.base.source_id
        &&& self.fanout@.source_epoch == self.base.source_epoch
    }

    /// A connection of the source of a project, before its first byte.
    pub fn start<V>(
        project: &ToolboxProject<V>,
        source_epoch: u64,
        transport: String,
        endpoint: String,
        clock_anchor: ClockAnchor,
    ) -> (runtime: SourceRuntime)
        ensures
            runtime.wf(),
            just_connected(
                runtime.base,
                *project,
                source_epoch,
                transport,
                endpoint,
                clock_anchor,
            ),
            nothing_passed(runtime, project.source.id, source_epoch),
    {
        let source_id = project.source.id;
        SourceRuntime {
            base: SourceSnapshot {
                source_id,
                name: project.source.name.clone(),
                status: SourceStatus::Connected,
                transport,
                endpoint,
                source_epoch,
                epoch_id: Some(Uuid::now_v7()),
                clock_anchor: Some(clock_anchor),
                queue_depths: QueueDepths::none(),
                stats: SourceStats::default(),
            },
            fanout: Fanout::new(source_id, source_epoch),
            ipc: ByteQueue::new(IPC_BYTES, IPC_ITEMS),
            stopped: false,
            tx: TxScheduler::new(source_epoch),
        }
    }

    /// How the connection is doing.
    pub fn snapshot(&self) -> (snapshot: SourceSnapshot)
        requires
            self.wf(),
        ensures
            snapshot == (SourceSnapshot {
                status: if self.stopped {
                    SourceStatus::Faulted
                } else {
                    SourceStatus::Connected
                },
                queue_depths: QueueDepths {
                    recorder_bytes: total(self.fanout@.recorder.items) as usize,
                    parser_bytes: total(self.fanout@.parser.items) as usize,
                    terminal_bytes: total(self.fanout@.terminal.items) as usize,
                    ipc_bytes: total(self.ipc@.items) as usize,
                    tx_bytes: total(self.tx@.queue.items) as usize,
                },
                stats: self.fanout@.stats,
                ..self.base
            }),
    {
        let (recorder_bytes, parser_bytes, terminal_bytes) = self.fanout.depths();
        let mut snapshot = self.base.clone();
        snapshot.status =
        if self.stopped {
            SourceStatus::Faulted
        } else {
            SourceStatus::Connected
        };
        snapshot.queue_depths =
        QueueDepths {
            recorder_bytes,
            parser_bytes,
            terminal_bytes,
            ipc_bytes: self.ipc.depth_bytes(),
            tx_bytes: self.tx.depth_bytes(),
        };
        snapshot.stats = self.fanout.stats();
        snapshot
    }

    /// Starts or stops recording what passes.
    pub fn set_recording(&mut self, enabled: bool)
        requires
            old(self).wf(),
        ensures
            final(self).wf(),
            final(self).fanout@ == (FanoutState { accepting: enabled, ..old(self).fanout@ }),
            final(self).base == old(self).base,
            final(self).ipc == old(self).ipc,
            final(self).stopped == old(self).stopped,
            final(self).tx == old(self).tx,
    {
        self.fanout.set_recording(enabled);
    }

    /// Whether the connection is over.
    pub fn is_stopped(&self) -> (stopped: bool)
        ensures
            stopped == self.stopped,
    {
        self.stopped
    }

    /// Puts a message behind those on their way, in place of the oldest where there is
    /// no room, and tells how many were displaced.
    pub fn send(&mut self, message: StreamMessage) -> (dropped: usize)
        requires
            old(self).wf(),
        ensures
            final(self).wf(),
            final(self).base == old(self).base,
            final(self).fanout == old(self).fanout,
            final(self).stopped == old(self).stopped,
            final(self).tx == old(self).tx,
            if old(self).ipc@.refuses(message.size(), OverflowPolicy::DropOldest) {
                final(self).ipc@ == old(self).ipc@ && dropped == 0
            } else {
                &&& final(self).ipc@ == old(self).ipc@.pushed(message, OverflowPolicy::DropOldest)
                &&& dropped == old(self).ipc@.displaced(
                    message.size(),
                    OverflowPolicy::DropOldest,
                ).0
            },
    {
        match self.ipc.push(message, OverflowPolicy::DropOldest) {
            Ok(outcome) => outcome.dropped_items,
            Err(_) => 0,
        }
    }

    /// Shows a chunk in the terminal, and counts the batches that give way to it.
    pub fn show(&mut self, chunk: &RawChunk)
        requires
            old(self).wf(),
            old(self).fanout@.stats.ui_dropped_batches + old(self).ipc@.items.len() <= u64::MAX,
        ensures
            final(self).wf(),
            final(self).base == old(self).base,
            final(self).stopped == old(self).stopped,
            final(self).tx == old(self).tx,
            exists|message: StreamMessage|
                {
                    &&& #[trigger] shows_chunk(message, *chunk)
                    &&& final(self).ipc@ == with_message(old(self).ipc@, message)
                    &&& final(self).fanout@ == (FanoutState {
                        stats: SourceStats {
                            ui_dropped_batches: (old(self).fanout@.stats.ui_dropped_batches
                                + displaced_by(old(self).ipc@, message)) as u64,
                            ..old(self).fanout@.stats
                        },
                        ..old(self).fanout@
                    })
                },
    {
        let message = terminal_message(chunk);
        let ghost told = message;
        proof {
            if !self.ipc@.refuses(message.size(), OverflowPolicy::DropOldest) {
                crate::queue::law_only_the_oldest_leave(
                    self.ipc@,
                    message.size(),
                    OverflowPolicy::DropOldest,
                );
            }
        }
        let dropped = self.send(message);
        if dropped > 0 {
            self.fanout.count_dropped_batches(dropped);
        }
        assert(shows_chunk(told, *chunk));
        assert(self.fanout@ =~= FanoutState {
            stats: SourceStats {
                ui_dropped_batches: (old(self).fanout@.stats.ui_dropped_batches + displaced_by(
                    old(self).ipc@,
                    told,
                )) as u64,
                ..old(self).fanout@.stats
            },
            ..old(self).fanout@
        });
    }

    /// A chunk was parsed: what came of it is counted, the values of its samples are the
    /// latest ones, and its batches are sent with their payloads.
    pub fn publish_parsed<V: Copy>(
        &mut self,
        output: &PipelineOutput<V>,
        payloads: &Vec<Vec<u8>>,
        monotonic_offset_ns: i64,
        state: &mut StateStore<V>,
    )
        requires
            old(self).wf(),
            old(state).wf(),
            payloads@.len() == batches_of(*output).len(),
            old(self).fanout@.stats.parsed_frames + output.frames@.len() <= u64::MAX,
            old(self).fanout@.stats.checksum_failures + output.checksum_failures <= u64::MAX,
        ensures
            final(self).wf(),
            final(state).wf(),
            final(self).base == old(self).base,
            final(self).stopped == old(self).stopped,
            final(self).tx == old(self).tx,
            final(self).fanout@ == (FanoutState {
                stats: SourceStats {
                    parsed_frames: (old(self).fanout@.stats.parsed_frames
                        + output.frames@.len()) as u64,
                    checksum_failures: (old(self).fanout@.stats.checksum_failures
                        + output.checksum_failures) as u64,
                    ..old(self).fanout@.stats
                },
                ..old(self).fanout@
            }),
            final(state)@ == (StoreState {
                latest: updated(old(state)@.latest, values_of(output.samples@)),
                ..old(state)@
            }),
            exists|messages: Seq<StreamMessage>|
                {
                    &&& #[trigger] carry(messages, *output, payloads@, monotonic_offset_ns)
                    &&& final(self).ipc@ == with_messages(old(self).ipc@, messages)
                },
    {
        self.fanout.count_parsed(output.frames.len(), output.checksum_failures);
        let values = sample_values(&output.samples);
        state.update_latest_values(values.as_slice());
        let types = batches(output);
        let ghost mut sent: Seq<StreamMessage> = Seq::empty();
        let ghost counted = self.fanout;
        let mut i: usize = 0;
        while i < types.len()
            invariant
                i <= types@.len(),
                types@ == batches_of(*output),
                payloads@.len() == types@.len(),
                self.wf(),
                self.base == old(self).base,
                self.stopped == old(self).stopped,
                self.tx == old(self).tx,
                self.fanout == counted,
                sent.len() == i,
                forall|j: int|
                    0 <= j < i ==> carries(
                        #[trigger] sent[j],
                        types@[j],
                        payloads@[j],
                        monotonic_offset_ns,
                    ),
                self.ipc@ == with_messages(old(self).ipc@, sent),
            decreases types@.len() - i,
        {
            let message = StreamMessage {
                payload_type: types[i],
                payload_version: 1,
                monotonic_offset_ns,
                payload: copy_bytes(&payloads[i]),
            };
            proof {
                assert(sent.push(message).drop_last() =~= sent);
                sent = sent.push(message);
            }
            self.send(message);
            i += 1;
        }
        assert(carry(sent, *output, payloads@, monotonic_offset_ns));
    }

    /// A job was written, wholly, in part or not at all: what was taken is handed out
    /// like received bytes, and the scheduler tells what came of it.
    pub fn finish_write<V: Copy>(
        &mut self,
        job: &TxJob,
        result: Result<usize, String>,
        monotonic_offset_ns: i64,
        now_ns: u64,
        session: &mut SessionManager,
        state: &mut StateStore<V>,
    )
        requires
            old(self).wf(),
            old(state).wf(),
            result matches Ok(written) ==> written <= job.request.payload@.len(),
            has_room_for(old(self).fanout@, job.request.payload@.len()),
        ensures
            final(self).wf(),
            final(state).wf(),
            final(self).base == old(self).base,
            final(self).ipc == old(self).ipc,
            final(self).stopped == old(self).stopped,
            final(session).recorder == old(session).recorder,
            job_finished(
                *job,
                result,
                monotonic_offset_ns,
                now_ns,
                old(self).fanout@,
                old(self).tx@,
                old(session).current,
                old(state)@,
                final(self).fanout@,
                final(self).tx@,
                final(session).current,
                final(state)@,
            ),
    {
        let bytes = bytes_taken(job, &result);
        let ghost taken = bytes;
        let report = self.fanout.push(Direction::Tx, bytes, Some(job.id), monotonic_offset_ns);
        report.publish(session, state);
        let ghost between = state@;
        self.tx.finish_write(job, result, now_ns, state);
        assert(sent_bytes_told(
            taken,
            job.id,
            monotonic_offset_ns,
            report,
            old(self).fanout@,
            old(session).current,
            old(state)@,
            self.fanout@,
            session.current,
            between,
        ));
        assert(taken@ == taken_bytes(*job, result));
    }

    /// The connection has failed: nothing more is sent, and what waits to be sent is
    /// cancelled.
    pub fn fault(&mut self)
        requires
            old(self).wf(),
        ensures
            final(self).wf(),
            final(self).stopped,
            final(self).base == old(self).base,
            final(self).fanout == old(self).fanout,
            final(self).ipc == old(self).ipc,
            final(self).tx@ == (TxState { stopping: true, ..old(self).tx@ }),
    {
        self.stopped = true;
        self.tx.halt();
    }

    /// The connection ends: nothing more is taken, and what waits is worked off or
    /// cancelled.
    pub fn stop(&mut self)
        requires
            old(self).wf(),
        ensures
            final(self).wf(),
            final(self).stopped,
            final(self).base == old(self).base,
            final(self).fanout@ == (FanoutState {
                accepting: false,
                recorder: QueueState { closed: true, ..old(self).fanout@.recorder },
                parser: QueueState { closed: true, ..old(self).fanout@.parser },
                terminal: QueueState { closed: true, ..old(self).fanout@.terminal },
                ..old(self).fanout@
            }),
            final(self).ipc@ == (QueueState { closed: true, ..old(self).ipc@ }),
            final(self).tx@ == (TxState {
                stopping: true,
                queue: QueueState { closed: true, ..old(self).tx@.queue },
                ..old(self).tx@
            }),
    {
        self.stopped = true;
        self.fanout.set_recording(false);
        self.tx.stop();
        self.fanout.close();
        self.ipc.close();
    }

    /// Tells that the connection has failed, and why.
    pub fn tell_fault<V: Copy>(&self, error: ToolboxError, state: &mut StateStore<V>)
        requires
            old(state).wf(),
        ensures
            final(state).wf(),
            exists|between: StoreState<V>|
                {
                    &&& #[trigger] told_error(old(state)@, error@, between)
                    &&& source_told(
                        between,
                        (SourceSnapshot { status: SourceStatus::Faulted, ..self.base }),
                        "source.faulted"@,
                        final(state)@,
                    )
                },
    {
        state.push_error(error);
        let mut snapshot = self.base.clone();
        snapshot.status = SourceStatus::Faulted;
        state.set_source(Arc::new(snapshot), "source.faulted");
    }
}

/// `after` is `before` with this state of a source, told of.
pub open spec fn source_told<V>(
    before: StoreState<V>,
    source: SourceSnapshot,
    event_type: Seq<char>,
    after: StoreState<V>,
) -> bool {
    told(
        before.with_source(Arc::new(source)),
        event_type,
        EventPayload::Source(Arc::new(source)),
        after,
    )
}

/// Bytes that were sent are handed out, and what has to be told of it is told.
pub open spec fn sent_bytes_told<V>(
    bytes: Vec<u8>,
    job_id: Uuid,
    offset_ns: i64,
    report: FanoutReport,
    fanout: FanoutState,
    session: SessionSnapshot,
    store: StoreState<V>,
    fanout_after: FanoutState,
    session_after: SessionSnapshot,
    store_after: StoreState<V>,
) -> bool {
    &&& if bytes@.len() == 0 {
        fanout_after == fanout && nothing_to_tell(report)
    } else {
        let chunk = chunk_of(fanout, Direction::Tx, bytes, Some(job_id), offset_ns);
        fanout_after == handed_out(fanout, chunk) && reports(report, fanout, chunk)
    }
    &&& report_told(report, session, store, session_after, store_after)
}

/// What becomes of everything when a job was written, wholly, in part or not at all.
pub open spec fn job_finished<V>(
    job: TxJob,
    result: Result<usize, String>,
    offset_ns: i64,
    now_ns: u64,
    fanout: FanoutState,
    tx: TxState,
    session: SessionSnapshot,
    store: StoreState<V>,
    fanout_after: FanoutState,
    tx_after: TxState,
    session_after: SessionSnapshot,
    store_after: StoreState<V>,
) -> bool {
    exists|bytes: Vec<u8>, report: FanoutReport, between: StoreState<V>|
        {
            &&& bytes@ == taken_bytes(job, result)
            &&& #[trigger] sent_bytes_told(
                bytes,
                job.id,
                offset_ns,
                report,
                fanout,
                session,
                store,
                fanout_after,
                session_after,
                between,
            )
            &&& write_finished(tx, job, result, now_ns, between, tx_after, store_after)
        }
}

} // verus!
