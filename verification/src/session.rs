//! Recording sessions: which rows are written when, and how they are read back.

use crate::envelope::as_unsigned;
use crate::error::{
    failure, ContextData, ContextValue, ErrorCode, ErrorData, ToolboxError, ToolboxResult,
};
use crate::event::{
    fields_data, told, told_error, EventData, EventDatum, EventFields, EventPayload, EventValue,
    StateStore, StoreState,
};
use crate::framer::{rule_defect, FramerState};
use crate::ident::{uuid_from_text, uuid_to_text, variant_bits, version_bits, Uuid};
use crate::math::SampleMath;
use crate::model::{
    Direction, EpochIdentity, RawChunk, SampleView, SessionSnapshot, SessionStatus,
    SourceSnapshot, SourceStatus, ToolboxProject, APP_VERSION, PIPELINE_SEMANTIC_VERSION,
};
use crate::pipeline::{chunk_processed, Pipeline, PipelineOutput, PipelineState};
use crate::text::{append_decimal, append_signed, decimal, signed_decimal};
use crate::transform::Memories;
use std::sync::Arc;
use vstd::prelude::*;

verus! {

/// A checkpoint is due after this time,
pub const CHECKPOINT_INTERVAL_NS: u64 = 30_000_000_000;

/// or when the write-ahead log has grown this large.
pub const CHECKPOINT_WAL_BYTES: u64 = 33_554_432;

/// For how long the final checkpoint is tried,
pub const CHECKPOINT_STOP_BUDGET_NS: u64 = 5_000_000_000;

/// and how long it waits between tries.
pub const CHECKPOINT_RETRY_NS: u64 = 100_000_000;

/// A reading of the clock of the machine.
#[verifier::external_type_specification]
#[verifier::external_body]
pub struct ExSystemTime(std::time::SystemTime);

/// Calls `std::time::SystemTime::now`. The clock decides the value, so that nothing is
/// claimed of it.
#[verifier::external_body]
fn read_clock() -> (at: std::time::SystemTime) {
    std::time::SystemTime::now()
}

/// Calls `std::time::SystemTime::duration_since` with the Unix epoch: the time since then,
/// or nothing when the reading lies before it. Nothing more is claimed of it, since what a
/// reading holds cannot be seen.
#[verifier::external_body]
fn since_unix_epoch(at: &std::time::SystemTime) -> (since: Option<std::time::Duration>) {
    at.duration_since(std::time::UNIX_EPOCH).ok()
}

/// Calls `std::time::Duration::as_nanos`. Nothing is claimed of the number, since what a
/// duration holds cannot be seen.
#[verifier::external_body]
fn all_nanoseconds(since: &std::time::Duration) -> (nanoseconds: u128) {
    since.as_nanos()
}

/// Nanoseconds as a signed number; what is too large is cut to the largest one.
pub open spec fn clamped_ns(nanoseconds: u128) -> i64 {
    if nanoseconds > i64::MAX {
        i64::MAX
    } else {
        nanoseconds as i64
    }
}

/// Nanoseconds as a signed number; what is too large is cut to the largest one.
pub fn clamp_ns(nanoseconds: u128) -> (clamped: i64)
    ensures
        clamped == clamped_ns(nanoseconds),
        clamped >= 0,
{
    if nanoseconds > i64::MAX as u128 {
        i64::MAX
    } else {
        nanoseconds as i64
    }
}

/// The time of day in nanoseconds since the Unix epoch. Whatever the clock says, it
/// is not negative.
pub fn utc_now_ns() -> (now: i64)
    ensures
        exists|reading: Option<u128>| #[trigger] clock_reads(reading) && now == time_read(reading),
        now >= 0,
{
    let at = read_clock();
    let reading = match since_unix_epoch(&at) {
        Some(since) => {
            let nanoseconds = all_nanoseconds(&since);
            assert(is_reading(at, Some(since), Some(nanoseconds)));
            Some(nanoseconds)
        },
        None => {
            assert(is_reading(at, None, None));
            None
        },
    };
    assert(clock_reads(reading));
    time_of_reading(reading)
}

/// The clock was read, and the time since the Unix epoch and its nanoseconds were taken
/// from that reading.
spec fn is_reading(
    at: std::time::SystemTime,
    since: Option<std::time::Duration>,
    nanoseconds: Option<u128>,
) -> bool {
    &&& call_ensures(read_clock, (), at)
    &&& call_ensures(since_unix_epoch, (&at,), since)
    &&& match since {
        Some(since) => nanoseconds matches Some(count) && call_ensures(
            all_nanoseconds,
            (&since,),
            count,
        ),
        None => nanoseconds is None,
    }
}

/// The clock of the machine was read and said this: the nanoseconds since the Unix
/// epoch, or nothing when it stands before it.
pub closed spec fn clock_reads(reading: Option<u128>) -> bool {
    exists|at: std::time::SystemTime, since: Option<std::time::Duration>| #[trigger]
        is_reading(at, since, reading)
}

/// The time of day that a reading of the clock stands for. A clock that stands before
/// the Unix epoch is taken to stand at it.
pub open spec fn time_read(reading: Option<u128>) -> i64 {
    match reading {
        Some(nanoseconds) => clamped_ns(nanoseconds),
        None => 0,
    }
}

/// The time of day that a reading of the clock stands for.
pub fn time_of_reading(reading: Option<u128>) -> (time: i64)
    ensures
        time == time_read(reading),
        time >= 0,
{
    match reading {
        Some(nanoseconds) => clamp_ns(nanoseconds),
        None => 0,
    }
}

/// What a recording keeps track of.
#[derive(Debug)]
pub struct Recorder {
    pub path: String,
    pub session_id: Uuid,
    pub runtime_instance_id: Uuid,
    pub session_anchor_monotonic_ns: i64,
    pub current_epoch_id: Option<Uuid>,
    pub epoch_ordinal: u32,
    pub bytes_written: u64,
}

/// A row that describes a session.
#[derive(Debug)]
pub struct SessionRow {
    pub id: String,
    pub started_utc_ns: i64,
    pub monotonic_anchor_ns: i64,
    pub runtime_instance_id: String,
    pub project_schema_version: String,
    pub pipeline_semantic_version: String,
    pub app_version: String,
}

/// A row that describes one connection within a session.
#[derive(Debug)]
pub struct EpochRow {
    pub identity: EpochIdentity,
    pub id: String,
    pub session_id: String,
    pub ordinal: u32,
    pub runtime_instance_id: String,
    pub source_id: String,
    pub source_epoch: i64,
    pub endpoint: String,
    pub utc_anchor_ns: i64,
    pub monotonic_anchor_ns: i64,
    pub session_offset_ns: i64,
}

/// What is written when a recording starts. The session row comes first; then the
/// epoch row, unless the connection cannot be identified.
#[derive(Debug)]
pub struct RecordingPlan {
    pub recorder: Recorder,
    pub session: SessionRow,
    pub epoch: ToolboxResult<EpochRow>,
}

/// A row that holds one chunk.
#[derive(Debug)]
pub struct ChunkRow {
    pub session_id: String,
    pub epoch_id: String,
    pub source_id: String,
    pub source_epoch: i64,
    pub sequence: i64,
    pub direction: String,
    pub monotonic_offset_ns: i64,
    pub bytes: Arc<Vec<u8>>,
    pub tx_job_id: Option<String>,
}

/// What is written when a connection ends before the session does.
#[derive(Debug)]
pub struct EpochEnd {
    pub session_id: String,
    pub epoch_id: Option<String>,
}

/// The rows that end a connection within a session: its epoch ends for a reason, and an
/// event tells of the gap.
#[derive(Debug)]
pub struct GapRow<V> {
    pub session_id: String,
    pub epoch_id: String,
    pub end_reason: String,
    pub event_type: String,
    pub payload: EventPayload<V>,
}

/// What the event of a gap says.
pub open spec fn gap_data<V>(source_id: Uuid, source_epoch: u64, reason: Seq<char>) -> EventData<
    V,
> {
    seq![
        ("sourceId"@, EventDatum::Id(source_id)),
        ("sourceEpoch"@, EventDatum::Unsigned(source_epoch)),
        ("reason"@, EventDatum::Text(reason)),
    ]
}

/// `row` ends this connection for this reason.
pub open spec fn ends_connection<V>(
    row: GapRow<V>,
    session_id: Seq<char>,
    epoch_id: Seq<char>,
    source_id: Uuid,
    source_epoch: u64,
    reason: Seq<char>,
) -> bool {
    &&& row.session_id@ == session_id
    &&& row.epoch_id@ == epoch_id
    &&& row.end_reason@ == reason
    &&& row.event_type@ == "StreamGap"@
    &&& row.payload matches EventPayload::Fields(entries)
    &&& fields_data(entries@) == gap_data::<V>(source_id, source_epoch, reason)
}

/// `row` ends the connection that was recorded, if there was one.
pub open spec fn gap_told<V>(
    end: EpochEnd,
    source_id: Uuid,
    source_epoch: u64,
    reason: Seq<char>,
    row: Option<GapRow<V>>,
) -> bool {
    match end.epoch_id {
        Some(epoch_id) => row matches Some(row) && ends_connection(
            row,
            end.session_id@,
            epoch_id@,
            source_id,
            source_epoch,
            reason,
        ),
        None => row is None,
    }
}

impl EpochEnd {
    /// The rows that end a connection, if one was recorded.
    pub fn gap_row<V>(&self, source_id: Uuid, source_epoch: u64, reason: &str) -> (row: Option<
        GapRow<V>,
    >)
        ensures
            gap_told(*self, source_id, source_epoch, reason@, row),
    {
        match &self.epoch_id {
            Some(epoch_id) => {
                let fields: EventFields<V> = EventFields::new().with(
                    "sourceId",
                    EventValue::Id(source_id),
                ).with("sourceEpoch", EventValue::Unsigned(source_epoch)).with(
                    "reason",
                    EventValue::Text(reason.to_owned()),
                );
                assert(fields@ =~= gap_data::<V>(source_id, source_epoch, reason@));
                Some(
                    GapRow {
                        session_id: self.session_id.clone(),
                        epoch_id: epoch_id.clone(),
                        end_reason: reason.to_owned(),
                        event_type: "StreamGap".to_owned(),
                        payload: fields.payload(),
                    },
                )
            },
            None => None,
        }
    }
}

/// What is written when a session ends.
#[derive(Debug)]
pub struct StopPlan {
    pub session_id: String,
    pub epoch_id: Option<String>,
    pub bytes_written: i64,
    pub recorder: Recorder,
}

/// A chunk row together with what its epoch row says.
#[derive(Debug)]
pub struct ReplayRow {
    pub source_id: String,
    pub source_epoch: i64,
    pub sequence: i64,
    pub monotonic_offset_ns: i64,
    pub epoch_offset_ns: i64,
    pub direction: String,
    pub bytes: Vec<u8>,
    pub ordinal: u32,
}

/// A chunk that is played back.
#[derive(Debug)]
pub struct ReplayChunk {
    pub source_id: Uuid,
    pub source_epoch: u64,
    pub sequence: u64,
    pub monotonic_offset_ns: i64,
    pub session_offset_ns: i64,
    pub direction: Direction,
    pub bytes: Arc<Vec<u8>>,
    pub epoch_changed: bool,
}

/// A recorded session.
#[derive(Debug)]
pub struct ReplayData<V> {
    pub project: Arc<ToolboxProject<V>>,
    pub chunks: Vec<ReplayChunk>,
}

/// A line of an export.
#[derive(Debug, Clone, Copy)]
pub struct ExportRow<V> {
    pub session_offset_ns: i64,
    pub source_id: Uuid,
    pub source_epoch: u64,
    pub sample: SampleView<V>,
}

/// The first line of an export.
pub open spec fn export_header_text() -> Seq<char> {
    "session_time_ns,source_id,source_epoch,frame_sequence,channel_id,value"@
}

/// The first line of an export.
pub fn export_header() -> (header: String)
    ensures
        header@ == export_header_text(),
{
    "session_time_ns,source_id,source_epoch,frame_sequence,channel_id,value".to_owned()
}

/// A further line of an export, with the text of the value.
pub open spec fn export_line_text<V>(row: ExportRow<V>, value: Seq<char>) -> Seq<char> {
    signed_decimal(row.session_offset_ns as int) + ","@ + uuid_to_text(row.source_id.value) + ","@
        + decimal(row.source_epoch as nat) + ","@ + decimal(row.sample.frame_sequence as nat) + ","@
        + uuid_to_text(row.sample.channel_id.value) + ","@ + value
}

impl<V> ExportRow<V> {
    /// The line, with the text of the value.
    pub fn line(&self, value: &str) -> (line: String)
        ensures
            line@ == export_line_text(*self, value@),
    {
        let mut line = String::new();
        append_signed(&mut line, self.session_offset_ns);
        line.append(",");
        line.append(self.source_id.to_text().as_str());
        line.append(",");
        append_decimal(&mut line, self.source_epoch);
        line.append(",");
        append_decimal(&mut line, self.sample.frame_sequence);
        line.append(",");
        line.append(self.sample.channel_id.to_text().as_str());
        line.append(",");
        line.append(value);
        assert(line@ =~= export_line_text(*self, value@));
        line
    }
}

/// Whether a session in this status is under way.
pub open spec fn active(status: SessionStatus) -> bool {
    status == SessionStatus::Recording || status == SessionStatus::Suspended || status
        == SessionStatus::Finalizing
}

fn is_active_status(status: SessionStatus) -> (yes: bool)
    ensures
        yes == active(status),
{
    matches!(
        status,
        SessionStatus::Recording | SessionStatus::Suspended | SessionStatus::Finalizing
    )
}

/// The text that stands for a direction in a row.
pub open spec fn direction_name(direction: Direction) -> Seq<char> {
    match direction {
        Direction::Rx => "Rx"@,
        Direction::Tx => "Tx"@,
    }
}

/// The text that stands for a direction in a row.
pub fn direction_text(direction: Direction) -> (text: &'static str)
    ensures
        text@ == direction_name(direction),
{
    match direction {
        Direction::Rx => "Rx",
        Direction::Tx => "Tx",
    }
}

/// The direction that a text stands for; any other text stands for reception.
pub open spec fn named_direction(text: Seq<char>) -> Direction {
    if text == "Tx"@ {
        Direction::Tx
    } else {
        Direction::Rx
    }
}

/// An unsigned number as the signed number of the same eight bytes.
pub open spec fn as_signed(value: u64) -> int {
    if value > i64::MAX {
        value - 0x1_0000_0000_0000_0000
    } else {
        value as int
    }
}

fn signed_of(value: u64) -> (number: i64)
    ensures
        number == as_signed(value),
{
    let number = value as i64;
    assert(number == if value > 0x7fff_ffff_ffff_ffff {
        value - 0x1_0000_0000_0000_0000
    } else {
        value as int
    }) by (bit_vector)
        requires
            number == value as i64,
    ;
    number
}

fn unsigned_of(value: i64) -> (number: u64)
    ensures
        number == as_unsigned(value),
{
    let number = value as u64;
    assert(number == if value < 0 {
        value + 0x1_0000_0000_0000_0000
    } else {
        value as int
    }) by (bit_vector)
        requires
            number == value as u64,
    ;
    number
}

/// Whether the distance of a connection's clock anchor from that of the session is
/// a signed number.
pub open spec fn offset_fits(source: SourceSnapshot, session_anchor_ns: i64) -> bool {
    source.clock_anchor matches Some(anchor) ==> i64::MIN <= anchor.monotonic_anchor_ns
        - session_anchor_ns <= i64::MAX
}

/// What is wrong with a source that a recording should follow, if anything.
pub open spec fn epoch_defect(source: SourceSnapshot) -> Option<ErrorData> {
    if source.epoch_id is None {
        Some(failure(ErrorCode::EpochIdentity, "session.epoch"@, "epoch_identity_missing"@))
    } else if source.clock_anchor is None {
        Some(failure(ErrorCode::SessionState, "session.epoch"@, "clock_anchor_missing"@))
    } else {
        None
    }
}

/// `row` describes a connection within the session of a recorder.
pub open spec fn describes_epoch(row: EpochRow, recorder: Recorder, source: SourceSnapshot) -> bool {
    &&& source.epoch_id == Some(row.identity.epoch_id)
    &&& source.clock_anchor matches Some(anchor)
    &&& row.identity.runtime_instance_id == recorder.runtime_instance_id
    &&& row.identity.source_id == source.source_id
    &&& row.identity.source_epoch == source.source_epoch
    &&& row.identity.session_epoch_ordinal == Some(recorder.epoch_ordinal)
    &&& row.id@ == uuid_to_text(row.identity.epoch_id.value)
    &&& row.session_id@ == uuid_to_text(recorder.session_id.value)
    &&& row.ordinal == recorder.epoch_ordinal
    &&& row.runtime_instance_id@ == uuid_to_text(recorder.runtime_instance_id.value)
    &&& row.source_id@ == uuid_to_text(source.source_id.value)
    &&& row.source_epoch == as_signed(source.source_epoch)
    &&& row.endpoint@ == source.endpoint@
    &&& row.utc_anchor_ns == anchor.utc_anchor_unix_ns
    &&& row.monotonic_anchor_ns == anchor.monotonic_anchor_ns
    &&& row.session_offset_ns == anchor.monotonic_anchor_ns - recorder.session_anchor_monotonic_ns
}

/// The row for one more connection of a recorder. The connection is counted even if
/// it cannot be identified.
fn begin_epoch(recorder: &mut Recorder, source: &SourceSnapshot) -> (result: ToolboxResult<EpochRow>)
    requires
        old(recorder).epoch_ordinal < u32::MAX,
        offset_fits(*source, old(recorder).session_anchor_monotonic_ns),
    ensures
        *final(recorder) == (Recorder {
            epoch_ordinal: (old(recorder).epoch_ordinal + 1) as u32,
            ..*old(recorder)
        }),
        match result {
            Ok(row) => epoch_defect(*source) is None && describes_epoch(
                row,
                *final(recorder),
                *source,
            ),
            Err(error) => epoch_defect(*source) == Some(error@),
        },
{
    recorder.epoch_ordinal = recorder.epoch_ordinal + 1;
    let epoch_id = match source.epoch_id {
        Some(id) => id,
        None => {
            return Err(
                ToolboxError::new(
                    ErrorCode::EpochIdentity,
                    "session.epoch",
                    "epoch_identity_missing",
                ),
            );
        },
    };
    let identity = EpochIdentity {
        epoch_id,
        runtime_instance_id: recorder.runtime_instance_id,
        source_id: source.source_id,
        source_epoch: source.source_epoch,
        session_epoch_ordinal: Some(recorder.epoch_ordinal),
    };
    let anchor = match source.clock_anchor {
        Some(anchor) => anchor,
        None => {
            return Err(
                ToolboxError::new(
                    ErrorCode::SessionState,
                    "session.epoch",
                    "clock_anchor_missing",
                ),
            );
        },
    };
    Ok(
        EpochRow {
            identity,
            id: epoch_id.to_text(),
            session_id: recorder.session_id.to_text(),
            ordinal: recorder.epoch_ordinal,
            runtime_instance_id: recorder.runtime_instance_id.to_text(),
            source_id: source.source_id.to_text(),
            source_epoch: signed_of(source.source_epoch),
            endpoint: source.endpoint.clone(),
            utc_anchor_ns: anchor.utc_anchor_unix_ns,
            monotonic_anchor_ns: anchor.monotonic_anchor_ns,
            session_offset_ns: anchor.monotonic_anchor_ns - recorder.session_anchor_monotonic_ns,
        },
    )
}

/// `row` holds a chunk of a session and an epoch.
pub open spec fn holds_chunk(row: ChunkRow, session_id: Uuid, epoch_id: Uuid, chunk: RawChunk) -> bool {
    &&& row.session_id@ == uuid_to_text(session_id.value)
    &&& row.epoch_id@ == uuid_to_text(epoch_id.value)
    &&& row.source_id@ == uuid_to_text(chunk.source_id.value)
    &&& uuid_from_text(row.source_id@) == Some(chunk.source_id.value)
    &&& row.source_epoch == as_signed(chunk.source_epoch)
    &&& row.sequence == as_signed(chunk.sequence)
    &&& row.direction@ == direction_name(chunk.direction)
    &&& row.monotonic_offset_ns == chunk.monotonic_offset_ns
    &&& row.bytes == chunk.bytes
    &&& match chunk.tx_job_id {
        Some(id) => row.tx_job_id matches Some(text) && text@ == uuid_to_text(id.value),
        None => row.tx_job_id is None,
    }
}

/// The bytes of rows together.
pub open spec fn row_bytes(rows: Seq<ChunkRow>) -> nat
    decreases rows.len(),
{
    if rows.len() == 0 {
        0
    } else {
        row_bytes(rows.drop_last()) + rows.last().bytes@.len()
    }
}

fn chunk_row(session_id: Uuid, epoch_id: Uuid, chunk: &RawChunk) -> (row: ChunkRow)
    ensures
        holds_chunk(row, session_id, epoch_id, *chunk),
{
    ChunkRow {
        session_id: session_id.to_text(),
        epoch_id: epoch_id.to_text(),
        source_id: chunk.source_id.to_text(),
        source_epoch: signed_of(chunk.source_epoch),
        sequence: signed_of(chunk.sequence),
        direction: direction_text(chunk.direction).to_owned(),
        monotonic_offset_ns: chunk.monotonic_offset_ns,
        bytes: crate::model::share(&chunk.bytes),
        tx_job_id: match chunk.tx_job_id {
            Some(id) => Some(id.to_text()),
            None => None,
        },
    }
}

/// Whether the log of a recording should be merged now.
pub fn should_checkpoint(elapsed_ns: u64, wal_bytes: u64) -> (due: bool)
    ensures
        due == (elapsed_ns >= CHECKPOINT_INTERVAL_NS || wal_bytes >= CHECKPOINT_WAL_BYTES),
{
    elapsed_ns >= CHECKPOINT_INTERVAL_NS || wal_bytes >= CHECKPOINT_WAL_BYTES
}

/// What follows from one try of the final checkpoint.
#[derive(Debug)]
pub enum CheckpointVerdict {
    Done,
    Retry,
    GiveUp(ToolboxError),
}

/// What is said of a log that could not be merged in time.
pub open spec fn checkpoint_busy_error(busy: i64, log_frames: i64, checkpointed: i64) -> ErrorData {
    failure(ErrorCode::SessionCheckpointBusy, "session.stop"@, "checkpoint_busy"@).noting(
        "busy"@,
        ContextData::Signed(busy),
    ).noting("logFrames"@, ContextData::Signed(log_frames)).noting(
        "checkpointedFrames"@,
        ContextData::Signed(checkpointed),
    )
}

/// What follows from one try of the final checkpoint, given how long it has been
/// tried.
pub fn checkpoint_verdict(busy: i64, log_frames: i64, checkpointed: i64, elapsed_ns: u64, budget_ns: u64) -> (
    verdict: CheckpointVerdict)
    ensures
        match verdict {
            CheckpointVerdict::Done => busy == 0 && log_frames == checkpointed,
            CheckpointVerdict::Retry => !(busy == 0 && log_frames == checkpointed) && elapsed_ns
                < budget_ns,
            CheckpointVerdict::GiveUp(error) => {
                &&& !(busy == 0 && log_frames == checkpointed)
                &&& elapsed_ns >= budget_ns
                &&& error@ == checkpoint_busy_error(busy, log_frames, checkpointed)
            },
        },
{
    if busy == 0 && log_frames == checkpointed {
        CheckpointVerdict::Done
    } else if elapsed_ns >= budget_ns {
        CheckpointVerdict::GiveUp(
            ToolboxError::new(
                ErrorCode::SessionCheckpointBusy,
                "session.stop",
                "checkpoint_busy",
            ).context("busy", ContextValue::Signed(busy)).context(
                "logFrames",
                ContextValue::Signed(log_frames),
            ).context("checkpointedFrames", ContextValue::Signed(checkpointed)),
        )
    } else {
        CheckpointVerdict::Retry
    }
}

/// Why a recording cannot start, if it cannot.
pub open spec fn start_defect(
    status: SessionStatus,
    source: SourceSnapshot,
    path: Seq<char>,
    path_exists: bool,
) -> Option<ErrorData> {
    if active(status) {
        Some(failure(ErrorCode::SessionState, "session.start"@, "session_already_active"@))
    } else if source.status != SourceStatus::Connected {
        Some(failure(ErrorCode::SessionState, "session.start"@, "source_not_connected"@))
    } else if path_exists {
        Some(
            failure(ErrorCode::SessionOpen, "session.start"@, "session_path_exists"@).noting(
                "path"@,
                ContextData::Text(path),
            ),
        )
    } else {
        None
    }
}

/// What is to be written when a recording starts, or why it cannot.
pub open spec fn recording_planned<V>(
    status: SessionStatus,
    project: ToolboxProject<V>,
    source: SourceSnapshot,
    runtime_instance_id: Uuid,
    path: String,
    path_exists: bool,
    started_utc_ns: i64,
    session_anchor_monotonic_ns: i64,
    result: ToolboxResult<RecordingPlan>,
) -> bool {
    match result {
        Ok(plan) => {
            &&& start_defect(status, source, path@, path_exists) is None
            &&& version_bits(plan.recorder.session_id.value) == 7
            &&& variant_bits(plan.recorder.session_id.value) == 2
            &&& plan.recorder == (Recorder {
                path,
                session_id: plan.recorder.session_id,
                runtime_instance_id,
                session_anchor_monotonic_ns,
                current_epoch_id: None,
                epoch_ordinal: 1,
                bytes_written: 0,
            })
            &&& plan.session.id@ == uuid_to_text(plan.recorder.session_id.value)
            &&& plan.session.started_utc_ns == started_utc_ns
            &&& plan.session.monotonic_anchor_ns == session_anchor_monotonic_ns
            &&& plan.session.runtime_instance_id@ == uuid_to_text(runtime_instance_id.value)
            &&& plan.session.project_schema_version@ == project.project_schema_version@
            &&& plan.session.pipeline_semantic_version@ == project.pipeline_semantic_version@
            &&& plan.session.app_version@ == APP_VERSION@
            &&& match plan.epoch {
                Ok(row) => epoch_defect(source) is None && describes_epoch(
                    row,
                    plan.recorder,
                    source,
                ),
                Err(error) => epoch_defect(source) == Some(error@),
            }
        },
        Err(error) => start_defect(status, source, path@, path_exists) == Some(error@),
    }
}

/// What is to be written when a recording ends, or why it cannot.
pub open spec fn stop_planned<V>(
    before: SessionManager,
    store: StoreState<V>,
    result: ToolboxResult<StopPlan>,
    after: SessionManager,
    store_after: StoreState<V>,
) -> bool {
    let stoppable = active(before.current.status) || before.current.status
        == SessionStatus::Failed;
    match result {
        Ok(plan) => {
            &&& stoppable
            &&& before.recorder == Some(plan.recorder)
            &&& after.recorder is None
            &&& after.current == finalizing(before.current)
            &&& plan.session_id@ == uuid_to_text(plan.recorder.session_id.value)
            &&& match plan.recorder.current_epoch_id {
                Some(id) => plan.epoch_id matches Some(text) && text@ == uuid_to_text(id.value),
                None => plan.epoch_id is None,
            }
            &&& plan.bytes_written == as_signed(plan.recorder.bytes_written)
            &&& session_told(store, after.current, "session.finalizing"@, store_after)
        },
        Err(error) => {
            &&& after.recorder == before.recorder
            &&& store_after == store
            &&& if stoppable {
                &&& before.recorder is None
                &&& after.current == finalizing(before.current)
                &&& error@ == failure(
                    ErrorCode::SessionState,
                    "session.stop"@,
                    "recorder_missing"@,
                )
            } else {
                &&& after.current == before.current
                &&& error@ == failure(
                    ErrorCode::SessionState,
                    "session.stop"@,
                    "session_not_active"@,
                )
            }
        },
    }
}

/// Keeps the state of the session that is recorded.
pub struct SessionManager {
    pub current: SessionSnapshot,
    pub recorder: Option<Recorder>,
}

/// A connection that is recorded has ended: the rows that end it name its session and
/// its epoch, which is over. There are none where nothing is recorded.
pub open spec fn epoch_closed(
    before: SessionManager,
    result: ToolboxResult<Option<EpochEnd>>,
    after: SessionManager,
) -> bool {
    &&& after.current == before.current
    &&& match result {
        Ok(None) => before.current.status != SessionStatus::Recording && after.recorder
            == before.recorder,
        Ok(Some(end)) => {
            &&& before.current.status == SessionStatus::Recording
            &&& before.recorder matches Some(recorder)
            &&& end.session_id@ == uuid_to_text(recorder.session_id.value)
            &&& match recorder.current_epoch_id {
                Some(id) => end.epoch_id matches Some(text) && text@ == uuid_to_text(id.value),
                None => end.epoch_id is None,
            }
            &&& after.recorder == Some(Recorder { current_epoch_id: None, ..recorder })
        },
        Err(error) => {
            &&& before.current.status == SessionStatus::Recording
            &&& before.recorder is None
            &&& after.recorder is None
            &&& error@ == failure(
                ErrorCode::SessionState,
                "session.suspend"@,
                "recorder_missing"@,
            )
        },
    }
}

/// A recording is suspended for a reason, and that is told.
pub open spec fn now_suspended<V>(
    before: SessionManager,
    store: StoreState<V>,
    reason: Seq<char>,
    after: SessionManager,
    store_after: StoreState<V>,
) -> bool {
    &&& after.recorder == before.recorder
    &&& after.current.message matches Some(message)
    &&& message@ == reason
    &&& after.current == (SessionSnapshot {
        status: SessionStatus::Suspended,
        message: Some(message),
        ..before.current
    })
    &&& session_told(store, after.current, "session.suspended"@, store_after)
}

impl SessionManager {
    /// A manager that has recorded nothing.
    pub fn new() -> (manager: SessionManager)
        ensures
            manager.current.is_initial(),
            manager.recorder is None,
    {
        SessionManager { current: SessionSnapshot::default(), recorder: None }
    }

    /// The state of the session.
    pub fn snapshot(&self) -> (snapshot: SessionSnapshot)
        ensures
            snapshot == self.current,
    {
        self.current.clone()
    }

    /// Whether a session is under way.
    pub fn is_active(&self) -> (yes: bool)
        ensures
            yes == active(self.current.status),
    {
        is_active_status(self.current.status)
    }

    /// Whether the recording of the session under way is at a path.
    pub fn is_recording_to(&self, path: &String) -> (yes: bool)
        ensures
            yes == (active(self.current.status) && (self.current.path matches Some(own) && own@
                == path@)),
    {
        if !self.is_active() {
            return false;
        }
        match &self.current.path {
            Some(own) => *own == *path,
            None => false,
        }
    }

    /// Whether a recording could start here and now.
    pub fn admit_start(&self, path: &String, path_exists: bool, source: &SourceSnapshot) -> (result:
        ToolboxResult<()>)
        ensures
            match result {
                Ok(()) => start_defect(self.current.status, *source, path@, path_exists) is None,
                Err(error) => start_defect(self.current.status, *source, path@, path_exists)
                    == Some(error@),
            },
    {
        if self.is_active() {
            return Err(
                ToolboxError::new(
                    ErrorCode::SessionState,
                    "session.start",
                    "session_already_active",
                ),
            );
        }
        if source.status != SourceStatus::Connected {
            return Err(
                ToolboxError::new(
                    ErrorCode::SessionState,
                    "session.start",
                    "source_not_connected",
                ),
            );
        }
        if path_exists {
            return Err(
                ToolboxError::new(
                    ErrorCode::SessionOpen,
                    "session.start",
                    "session_path_exists",
                ).context("path", ContextValue::Text(path.clone())),
            );
        }
        Ok(())
    }

    /// What is to be written when a recording of a project starts at a path.
    pub fn start<V>(
        &self,
        path: String,
        path_exists: bool,
        project: &ToolboxProject<V>,
        source: &SourceSnapshot,
        runtime_instance_id: Uuid,
        started_utc_ns: i64,
        session_anchor_monotonic_ns: i64,
    ) -> (result: ToolboxResult<RecordingPlan>)
        requires
            offset_fits(*source, session_anchor_monotonic_ns),
        ensures
            recording_planned(
                self.current.status,
                *project,
                *source,
                runtime_instance_id,
                path,
                path_exists,
                started_utc_ns,
                session_anchor_monotonic_ns,
                result,
            ),
    {
        match self.admit_start(&path, path_exists, source) {
            Ok(()) => {},
            Err(error) => {
                return Err(error);
            },
        }
        let session_id = Uuid::now_v7();
        let session = SessionRow {
            id: session_id.to_text(),
            started_utc_ns,
            monotonic_anchor_ns: session_anchor_monotonic_ns,
            runtime_instance_id: runtime_instance_id.to_text(),
            project_schema_version: project.project_schema_version.clone(),
            pipeline_semantic_version: project.pipeline_semantic_version.clone(),
            app_version: APP_VERSION.to_owned(),
        };
        let mut recorder = Recorder {
            path,
            session_id,
            runtime_instance_id,
            session_anchor_monotonic_ns,
            current_epoch_id: None,
            epoch_ordinal: 0,
            bytes_written: 0,
        };
        let epoch = begin_epoch(&mut recorder, source);
        Ok(RecordingPlan { recorder, session, epoch })
    }

    /// The rows of a plan were written: recording is under way.
    pub fn started<V: Copy>(
        &mut self,
        recorder: Recorder,
        epoch: EpochRow,
        state: &mut StateStore<V>,
    ) -> (snapshot: SessionSnapshot)
        requires
            old(state).wf(),
        ensures
            final(state).wf(),
            final(self).recorder == Some(
                Recorder { current_epoch_id: Some(epoch.identity.epoch_id), ..recorder },
            ),
            snapshot == (SessionSnapshot {
                status: SessionStatus::Recording,
                session_id: Some(recorder.session_id),
                path: Some(recorder.path),
                epoch_ordinal: Some(recorder.epoch_ordinal),
                bytes_written: 0,
                checkpoint_pending: false,
                message: None,
            }),
            final(self).current == snapshot,
            session_told(old(state)@, snapshot, "session.started"@, final(state)@),
    {
        let snapshot = SessionSnapshot {
            status: SessionStatus::Recording,
            session_id: Some(recorder.session_id),
            path: Some(recorder.path.clone()),
            epoch_ordinal: Some(recorder.epoch_ordinal),
            bytes_written: 0,
            checkpoint_pending: false,
            message: None,
        };
        self.current = snapshot.clone();
        self.recorder =
        Some(Recorder { current_epoch_id: Some(epoch.identity.epoch_id), ..recorder });
        tell_session(state, &self.current, "session.started");
        snapshot
    }

    /// The rows to be written for a batch of chunks, or nothing where nothing is
    /// recorded.
    pub fn append_batch(&self, chunks: &Vec<RawChunk>) -> (result: ToolboxResult<
        Option<Vec<ChunkRow>>,
    >)
        ensures
            match result {
                Ok(None) => chunks@.len() == 0 || self.current.status != SessionStatus::Recording,
                Ok(Some(rows)) => {
                    &&& chunks@.len() > 0
                    &&& self.current.status == SessionStatus::Recording
                    &&& self.recorder matches Some(recorder)
                    &&& recorder.current_epoch_id matches Some(epoch_id)
                    &&& rows@.len() == chunks@.len()
                    &&& forall|i: int|
                        0 <= i < rows@.len() ==> holds_chunk(
                            #[trigger] rows@[i],
                            recorder.session_id,
                            epoch_id,
                            chunks@[i],
                        )
                },
                Err(error) => {
                    &&& chunks@.len() > 0
                    &&& self.current.status == SessionStatus::Recording
                    &&& match self.recorder {
                        None => error@ == failure(
                            ErrorCode::SessionState,
                            "session.append"@,
                            "recorder_missing"@,
                        ),
                        Some(recorder) => recorder.current_epoch_id is None && error@ == failure(
                            ErrorCode::SessionState,
                            "session.append"@,
                            "epoch_missing"@,
                        ),
                    }
                },
            },
    {
        if chunks.len() == 0 || self.current.status != SessionStatus::Recording {
            return Ok(None);
        }
        let recorder = match &self.recorder {
            Some(recorder) => recorder,
            None => {
                return Err(
                    ToolboxError::new(
                        ErrorCode::SessionState,
                        "session.append",
                        "recorder_missing",
                    ),
                );
            },
        };
        let epoch_id = match recorder.current_epoch_id {
            Some(id) => id,
            None => {
                return Err(
                    ToolboxError::new(ErrorCode::SessionState, "session.append", "epoch_missing"),
                );
            },
        };
        let mut rows: Vec<ChunkRow> = Vec::new();
        let mut i: usize = 0;
        while i < chunks.len()
            invariant
                i <= chunks@.len(),
                rows@.len() == i,
                forall|j: int|
                    0 <= j < i ==> holds_chunk(
                        #[trigger] rows@[j],
                        recorder.session_id,
                        epoch_id,
                        chunks@[j],
                    ),
            decreases chunks@.len() - i,
        {
            let row = chunk_row(recorder.session_id, epoch_id, &chunks[i]);
            rows.push(row);
            i += 1;
        }
        Ok(Some(rows))
    }

    /// Rows were committed: their bytes count as recorded.
    pub fn appended(&mut self, rows: &Vec<ChunkRow>)
        requires
            old(self).recorder matches Some(recorder) ==> recorder.bytes_written + row_bytes(rows@)
                <= u64::MAX,
        ensures
            final(self).current == old(self).current,
            match old(self).recorder {
                Some(recorder) => final(self).recorder == Some(
                    Recorder {
                        bytes_written: (recorder.bytes_written + row_bytes(rows@)) as u64,
                        ..recorder
                    },
                ),
                None => final(self).recorder is None,
            },
    {
        let mut taken: Option<Recorder> = None;
        std::mem::swap(&mut taken, &mut self.recorder);
        if let Some(recorder) = taken {
            let mut total: u64 = recorder.bytes_written;
            let mut i: usize = 0;
            assert(rows@.take(0) =~= Seq::<ChunkRow>::empty());
            while i < rows.len()
                invariant
                    i <= rows@.len(),
                    total == recorder.bytes_written + row_bytes(rows@.take(i as int)),
                    recorder.bytes_written + row_bytes(rows@) <= u64::MAX,
                decreases rows@.len() - i,
            {
                proof {
                    assert(rows@.take(i + 1).drop_last() =~= rows@.take(i as int));
                    lemma_row_bytes_prefix(rows@, i + 1);
                }
                total = total + rows[i].bytes.len() as u64;
                i += 1;
            }
            assert(rows@.take(rows@.len() as int) =~= rows@);
            self.recorder = Some(Recorder { bytes_written: total, ..recorder });
        }
    }

    /// Shows how much was recorded.
    pub fn show_bytes_written(&mut self)
        ensures
            final(self).recorder == old(self).recorder,
            final(self).current == match old(self).recorder {
                Some(recorder) => (SessionSnapshot {
                    bytes_written: recorder.bytes_written,
                    ..old(self).current
                }),
                None => old(self).current,
            },
    {
        if let Some(recorder) = &self.recorder {
            self.current.bytes_written = recorder.bytes_written;
        }
    }

    /// The connection that is recorded has ended: which rows end it, or nothing where
    /// nothing is recorded.
    pub fn suspend_epoch(&mut self) -> (result: ToolboxResult<Option<EpochEnd>>)
        ensures
            epoch_closed(*old(self), result, *final(self)),
    {
        if self.current.status != SessionStatus::Recording {
            return Ok(None);
        }
        let mut taken: Option<Recorder> = None;
        std::mem::swap(&mut taken, &mut self.recorder);
        match taken {
            Some(recorder) => {
                let end = EpochEnd {
                    session_id: recorder.session_id.to_text(),
                    epoch_id: match recorder.current_epoch_id {
                        Some(id) => Some(id.to_text()),
                        None => None,
                    },
                };
                self.recorder = Some(Recorder { current_epoch_id: None, ..recorder });
                Ok(Some(end))
            },
            None => Err(
                ToolboxError::new(ErrorCode::SessionState, "session.suspend", "recorder_missing"),
            ),
        }
    }

    /// The rows that end a connection were written: recording is suspended.
    pub fn suspended<V: Copy>(&mut self, reason: &str, state: &mut StateStore<V>)
        requires
            old(state).wf(),
        ensures
            final(state).wf(),
            now_suspended(*old(self), old(state)@, reason@, *final(self), final(state)@),
    {
        self.current.status = SessionStatus::Suspended;
        self.current.message = Some(reason.to_owned());
        tell_session(state, &self.current, "session.suspended");
    }

    /// The source is connected again: which row begins the new connection, or nothing
    /// where no recording is suspended.
    pub fn resume_epoch(&mut self, source: &SourceSnapshot) -> (result: ToolboxResult<
        Option<EpochRow>,
    >)
        requires
            old(self).recorder matches Some(recorder) ==> recorder.epoch_ordinal < u32::MAX
                && offset_fits(*source, recorder.session_anchor_monotonic_ns),
        ensures
            final(self).current == old(self).current,
            match result {
                Ok(None) => old(self).current.status != SessionStatus::Suspended && final(self).recorder == old(self).recorder,
                Ok(Some(row)) => {
                    &&& old(self).current.status == SessionStatus::Suspended
                    &&& epoch_defect(*source) is None
                    &&& old(self).recorder matches Some(recorder)
                    &&& final(self).recorder == Some(counted(recorder))
                    &&& describes_epoch(row, counted(recorder), *source)
                },
                Err(error) => {
                    &&& old(self).current.status == SessionStatus::Suspended
                    &&& match old(self).recorder {
                        None => final(self).recorder is None && error@ == failure(
                            ErrorCode::SessionState,
                            "session.resume"@,
                            "recorder_missing"@,
                        ),
                        Some(recorder) => final(self).recorder == Some(counted(recorder))
                            && epoch_defect(*source) == Some(error@),
                    }
                },
            },
    {
        if self.current.status != SessionStatus::Suspended {
            return Ok(None);
        }
        let mut taken: Option<Recorder> = None;
        std::mem::swap(&mut taken, &mut self.recorder);
        match taken {
            Some(mut recorder) => {
                let result = begin_epoch(&mut recorder, source);
                self.recorder = Some(recorder);
                match result {
                    Ok(row) => Ok(Some(row)),
                    Err(error) => Err(error),
                }
            },
            None => Err(
                ToolboxError::new(ErrorCode::SessionState, "session.resume", "recorder_missing"),
            ),
        }
    }

    /// The row that begins a connection was written: recording goes on.
    pub fn resumed<V: Copy>(&mut self, epoch: EpochRow, state: &mut StateStore<V>)
        requires
            old(state).wf(),
        ensures
            final(state).wf(),
            match old(self).recorder {
                Some(recorder) => final(self).recorder == Some(
                    Recorder { current_epoch_id: Some(epoch.identity.epoch_id), ..recorder },
                ),
                None => final(self).recorder is None,
            },
            final(self).current == (SessionSnapshot {
                status: SessionStatus::Recording,
                epoch_ordinal: Some(epoch.ordinal),
                message: None,
                ..old(self).current
            }),
            session_told(old(state)@, final(self).current, "session.resumed"@, final(state)@),
    {
        let mut taken: Option<Recorder> = None;
        std::mem::swap(&mut taken, &mut self.recorder);
        if let Some(recorder) = taken {
            self.recorder =
            Some(Recorder { current_epoch_id: Some(epoch.identity.epoch_id), ..recorder });
        }
        self.current.status = SessionStatus::Recording;
        self.current.epoch_ordinal = Some(epoch.ordinal);
        self.current.message = None;
        tell_session(state, &self.current, "session.resumed");
    }

    /// Recording went wrong. Where a session was under way, it has failed.
    pub fn fail_recording<V: Copy>(&mut self, error: &ToolboxError, state: &mut StateStore<V>)
        requires
            old(state).wf(),
        ensures
            final(state).wf(),
            final(self).recorder == old(self).recorder,
            recording_failed(
                old(self).current,
                error@,
                old(state)@,
                final(self).current,
                final(state)@,
            ),
    {
        if self.is_active() {
            self.current.status = SessionStatus::Failed;
            self.current.message = Some(error.code.clone());
            tell_session(state, &self.current, "session.failed");
            state.push_error(error.clone());
        }
    }

    /// The session ends: which rows end it.
    pub fn stop<V: Copy>(&mut self, state: &mut StateStore<V>) -> (result: ToolboxResult<StopPlan>)
        requires
            old(state).wf(),
        ensures
            final(state).wf(),
            stop_planned(*old(self), old(state)@, result, *final(self), final(state)@),
    {
        if !self.is_active() && self.current.status != SessionStatus::Failed {
            return Err(
                ToolboxError::new(ErrorCode::SessionState, "session.stop", "session_not_active"),
            );
        }
        self.current.status = SessionStatus::Finalizing;
        self.current.checkpoint_pending = true;
        let mut taken: Option<Recorder> = None;
        std::mem::swap(&mut taken, &mut self.recorder);
        match taken {
            Some(recorder) => {
                tell_session(state, &self.current, "session.finalizing");
                Ok(
                    StopPlan {
                        session_id: recorder.session_id.to_text(),
                        epoch_id: match recorder.current_epoch_id {
                            Some(id) => Some(id.to_text()),
                            None => None,
                        },
                        bytes_written: signed_of(recorder.bytes_written),
                        recorder,
                    },
                )
            },
            None => Err(
                ToolboxError::new(ErrorCode::SessionState, "session.stop", "recorder_missing"),
            ),
        }
    }

    /// The rows that end the session were committed, and the log was merged or not:
    /// the session is closed.
    pub fn stopped<V: Copy>(
        &mut self,
        recorder: Recorder,
        checkpoint: ToolboxResult<()>,
        state: &mut StateStore<V>,
    ) -> (result: ToolboxResult<SessionSnapshot>)
        requires
            old(state).wf(),
        ensures
            final(state).wf(),
            final(self).recorder == old(self).recorder,
            final(self).current == (SessionSnapshot {
                status: SessionStatus::Closed,
                session_id: Some(recorder.session_id),
                path: Some(recorder.path),
                epoch_ordinal: None,
                bytes_written: recorder.bytes_written,
                checkpoint_pending: checkpoint is Err,
                message: final(self).current.message,
            }),
            final(self).current.message matches Some(message) && message@ == (if checkpoint is Ok {
                "recording_committed"@
            } else {
                "data_committed_wal_not_merged"@
            }),
            session_told(old(state)@, final(self).current, "session.closed"@, final(state)@),
            match checkpoint {
                Ok(()) => result matches Ok(snapshot) && snapshot == final(self).current,
                Err(error) => result matches Err(back) && back == error,
            },
    {
        let snapshot = SessionSnapshot {
            status: SessionStatus::Closed,
            session_id: Some(recorder.session_id),
            path: Some(recorder.path.clone()),
            epoch_ordinal: None,
            bytes_written: recorder.bytes_written,
            checkpoint_pending: checkpoint.is_err(),
            message: Some(
                if checkpoint.is_ok() {
                    "recording_committed".to_owned()
                } else {
                    "data_committed_wal_not_merged".to_owned()
                },
            ),
        };
        self.current = snapshot.clone();
        tell_session(state, &self.current, "session.closed");
        match checkpoint {
            Ok(()) => Ok(snapshot),
            Err(error) => Err(error),
        }
    }

    /// Whether a recorded session may be exported: not while it is being recorded.
    pub fn admit_export(&self, session_path: &String) -> (result: ToolboxResult<()>)
        ensures
            match result {
                Ok(()) => !(active(self.current.status) && (self.current.path matches Some(own)
                    && own@ == session_path@)),
                Err(error) => {
                    &&& active(self.current.status)
                    &&& self.current.path matches Some(own) && own@ == session_path@
                    &&& error@ == failure(
                        ErrorCode::ReplayActiveSession,
                        "session.export"@,
                        "active_session_export_forbidden"@,
                    )
                },
            },
    {
        if self.is_recording_to(session_path) {
            Err(
                ToolboxError::new(
                    ErrorCode::ReplayActiveSession,
                    "session.export",
                    "active_session_export_forbidden",
                ),
            )
        } else {
            Ok(())
        }
    }
}

/// What becomes of a session, and of the application's state, when recording goes
/// wrong: a session under way has failed, which is told of together with the error.
pub open spec fn recording_failed<V>(
    before: SessionSnapshot,
    error: ErrorData,
    store: StoreState<V>,
    after: SessionSnapshot,
    store_after: StoreState<V>,
) -> bool {
    if active(before.status) {
        &&& after.message matches Some(message) && message@ == error.code
        &&& after == (SessionSnapshot {
            status: SessionStatus::Failed,
            message: after.message,
            ..before
        })
        &&& exists|between: StoreState<V>|
            {
                &&& #[trigger] session_told(store, after, "session.failed"@, between)
                &&& told_error(between, error, store_after)
            }
    } else {
        after == before && store_after == store
    }
}

/// A recorder with one more connection counted.
pub open spec fn counted(recorder: Recorder) -> Recorder {
    Recorder { epoch_ordinal: (recorder.epoch_ordinal + 1) as u32, ..recorder }
}

/// A session on its way to being closed.
pub open spec fn finalizing(snapshot: SessionSnapshot) -> SessionSnapshot {
    SessionSnapshot { status: SessionStatus::Finalizing, checkpoint_pending: true, ..snapshot }
}

/// `after` is `before` with this state of the session, told of.
pub open spec fn session_told<V>(
    before: StoreState<V>,
    session: SessionSnapshot,
    event_type: Seq<char>,
    after: StoreState<V>,
) -> bool {
    told(
        before.with_session(Arc::new(session)),
        event_type,
        EventPayload::Session(Arc::new(session)),
        after,
    )
}

fn tell_session<V: Copy>(state: &mut StateStore<V>, session: &SessionSnapshot, event_type: &str)
    requires
        old(state).wf(),
    ensures
        final(state).wf(),
        session_told(old(state)@, *session, event_type@, final(state)@),
{
    state.set_session(Arc::new(session.clone()), event_type);
}

proof fn lemma_row_bytes_prefix(rows: Seq<ChunkRow>, count: int)
    requires
        0 <= count <= rows.len(),
    ensures
        row_bytes(rows.take(count)) <= row_bytes(rows),
    decreases rows.len() - count,
{
    if count < rows.len() {
        lemma_row_bytes_prefix(rows, count + 1);
        assert(rows.take(count + 1).drop_last() =~= rows.take(count));
    } else {
        assert(rows.take(count) =~= rows);
    }
}

/// Whether a recorded session was made under rules that are still known.
pub fn check_pipeline_version(version: &String) -> (result: ToolboxResult<()>)
    ensures
        match result {
            Ok(()) => version@ == PIPELINE_SEMANTIC_VERSION@,
            Err(error) => version@ != PIPELINE_SEMANTIC_VERSION@ && error@ == failure(
                ErrorCode::PipelineVersionUnsupported,
                "replay.load"@,
                "pipeline_version_unsupported"@,
            ).noting("version"@, ContextData::Text(version@)),
        },
{
    if *version == PIPELINE_SEMANTIC_VERSION.to_owned() {
        Ok(())
    } else {
        Err(
            ToolboxError::new(
                ErrorCode::PipelineVersionUnsupported,
                "replay.load",
                "pipeline_version_unsupported",
            ).context("version", ContextValue::Text(version.clone())),
        )
    }
}

/// Whether the place of a row on the time line of its session is a signed number.
pub open spec fn row_offset_fits(row: ReplayRow) -> bool {
    i64::MIN <= row.epoch_offset_ns + row.monotonic_offset_ns <= i64::MAX
}

/// The source that a row names; no source where its text is not an identifier.
pub open spec fn row_source(row: ReplayRow) -> Uuid {
    match uuid_from_text(row.source_id@) {
        Some(value) => Uuid { value },
        None => Uuid { value: 0 },
    }
}

/// `chunk` is what a row plays back, after rows of which the last had the connection
/// number `last`.
pub open spec fn plays_back(row: ReplayRow, last: Option<u32>, chunk: ReplayChunk) -> bool {
    &&& chunk.source_id == row_source(row)
    &&& chunk.source_epoch == as_unsigned(row.source_epoch)
    &&& chunk.sequence == as_unsigned(row.sequence)
    &&& chunk.monotonic_offset_ns == row.monotonic_offset_ns
    &&& chunk.session_offset_ns == row.epoch_offset_ns + row.monotonic_offset_ns
    &&& chunk.direction == named_direction(row.direction@)
    &&& chunk.bytes@ == row.bytes@
    &&& chunk.epoch_changed == (last matches Some(ordinal) && ordinal != row.ordinal)
}

/// The connection number of the row before.
pub open spec fn ordinal_before(rows: Seq<ReplayRow>, i: int) -> Option<u32> {
    if i == 0 {
        None
    } else {
        Some(rows[i - 1].ordinal)
    }
}

/// What rows play back, in order.
pub fn replay_chunks(rows: Vec<ReplayRow>) -> (chunks: Vec<ReplayChunk>)
    requires
        forall|i: int| 0 <= i < rows@.len() ==> row_offset_fits(#[trigger] rows@[i]),
    ensures
        chunks@.len() == rows@.len(),
        forall|i: int|
            0 <= i < chunks@.len() ==> plays_back(
                rows@[i],
                ordinal_before(rows@, i),
                #[trigger] chunks@[i],
            ),
{
    let mut chunks: Vec<ReplayChunk> = Vec::new();
    let mut last: Option<u32> = None;
    let mut i: usize = 0;
    while i < rows.len()
        invariant
            i <= rows@.len(),
            chunks@.len() == i,
            last == ordinal_before(rows@, i as int),
            forall|j: int| 0 <= j < rows@.len() ==> row_offset_fits(#[trigger] rows@[j]),
            forall|j: int|
                0 <= j < i ==> plays_back(
                    rows@[j],
                    ordinal_before(rows@, j),
                    #[trigger] chunks@[j],
                ),
        decreases rows@.len() - i,
    {
        let row = &rows[i];
        assert(row_offset_fits(rows@[i as int]));
        let changed = match last {
            Some(ordinal) => ordinal != row.ordinal,
            None => false,
        };
        let source_id = match Uuid::parse_str(row.source_id.as_str()) {
            Some(id) => id,
            None => Uuid::nil(),
        };
        let direction = if row.direction == "Tx".to_owned() {
            Direction::Tx
        } else {
            Direction::Rx
        };
        let chunk = ReplayChunk {
            source_id,
            source_epoch: unsigned_of(row.source_epoch),
            sequence: unsigned_of(row.sequence),
            monotonic_offset_ns: row.monotonic_offset_ns,
            session_offset_ns: row.epoch_offset_ns + row.monotonic_offset_ns,
            direction,
            bytes: Arc::new(crate::model::copy_bytes(&row.bytes)),
            epoch_changed: changed,
        };
        chunks.push(chunk);
        last = Some(row.ordinal);
        i += 1;
    }
    chunks
}

/// A chunk that was recorded is played back as it was: from the same source and
/// connection, with the same number, time, direction and bytes.
pub proof fn law_recorded_chunks_play_back_unchanged(
    stored: ChunkRow,
    session_id: Uuid,
    epoch_id: Uuid,
    original: RawChunk,
    loaded: ReplayRow,
    last: Option<u32>,
    played: ReplayChunk,
)
    requires
        holds_chunk(stored, session_id, epoch_id, original),
        loaded.source_id@ == stored.source_id@,
        loaded.source_epoch == stored.source_epoch,
        loaded.sequence == stored.sequence,
        loaded.monotonic_offset_ns == stored.monotonic_offset_ns,
        loaded.direction@ == stored.direction@,
        loaded.bytes@ == stored.bytes@,
        plays_back(loaded, last, played),
    ensures
        played.source_id == original.source_id,
        played.source_epoch == original.source_epoch,
        played.sequence == original.sequence,
        played.monotonic_offset_ns == original.monotonic_offset_ns,
        played.direction == original.direction,
        played.bytes@ == original.bytes@,
{
    reveal_strlit("Rx");
    reveal_strlit("Tx");
    assert("Rx"@[0] == 'R');
    assert("Tx"@[0] == 'T');
}

/// The chunk that goes into a pipeline when a recorded chunk is played back.
pub open spec fn is_raw_of(chunk: RawChunk, played: ReplayChunk) -> bool {
    &&& chunk.source_id == played.source_id
    &&& chunk.source_epoch == played.source_epoch
    &&& chunk.sequence == played.sequence
    &&& chunk.monotonic_offset_ns == played.monotonic_offset_ns
    &&& chunk.direction == played.direction
    &&& chunk.bytes == played.bytes
    &&& chunk.gap_before == played.epoch_changed
    &&& chunk.tx_job_id is None
}

impl ReplayChunk {
    /// The chunk that goes into a pipeline.
    pub fn to_raw(&self) -> (chunk: RawChunk)
        ensures
            is_raw_of(chunk, *self),
    {
        RawChunk {
            source_id: self.source_id,
            source_epoch: self.source_epoch,
            sequence: self.sequence,
            monotonic_offset_ns: self.monotonic_offset_ns,
            direction: self.direction,
            bytes: crate::model::share(&self.bytes),
            gap_before: self.epoch_changed,
            tx_job_id: None,
        }
    }
}

/// What a pipeline keeps from chunk to chunk.
#[verifier::ext_equal]
pub struct PipelineMemory<V> {
    pub framing: FramerState,
    pub state: PipelineState<V>,
}

/// The lines of samples of one chunk.
pub open spec fn chunk_lines<V>(played: ReplayChunk, samples: Seq<SampleView<V>>) -> Seq<ExportRow<V>> {
    samples.map_values(
        |sample: SampleView<V>|
            ExportRow {
                session_offset_ns: played.session_offset_ns,
                source_id: played.source_id,
                source_epoch: played.source_epoch,
                sample,
            },
    )
}

/// `lines` is what an export of chunks holds: the samples of each, in order.
pub open spec fn exported<V, M: SampleMath<V>>(
    math: &M,
    project: ToolboxProject<V>,
    chunks: Seq<ReplayChunk>,
    lines: Seq<ExportRow<V>>,
    after: PipelineMemory<V>,
) -> bool
    decreases chunks.len(),
{
    if chunks.len() == 0 {
        &&& lines == Seq::<ExportRow<V>>::empty()
        &&& after == PipelineMemory::<V>::fresh()
    } else {
        exists|
            before: Seq<ExportRow<V>>,
            held: PipelineMemory<V>,
            raw: RawChunk,
            output: PipelineOutput<V>,
        |
            {
                &&& exported(math, project, chunks.drop_last(), before, held)
                &&& #[trigger] is_raw_of(raw, chunks.last())
                &&& #[trigger] chunk_processed(
                    math,
                    project,
                    raw,
                    held.framing,
                    held.state,
                    output,
                    after.framing,
                    after.state,
                )
                &&& lines == #[trigger] before.add(chunk_lines(chunks.last(), output.samples@))
            }
    }
}

impl<V> PipelineMemory<V> {
    /// What a new pipeline keeps.
    pub open spec fn fresh() -> PipelineMemory<V> {
        PipelineMemory {
            framing: FramerState::fresh(),
            state: PipelineState { last_sequence: 0, memories: Memories::<V>::empty() },
        }
    }
}

/// `lines` is what an export of a recorded session holds.
pub open spec fn is_export<V, M: SampleMath<V>>(
    math: &M,
    project: ToolboxProject<V>,
    chunks: Seq<ReplayChunk>,
    lines: Seq<ExportRow<V>>,
) -> bool {
    exists|after: PipelineMemory<V>| #[trigger] exported(math, project, chunks, lines, after)
}

spec fn shared_project<V>(project: Arc<ToolboxProject<V>>) -> ToolboxProject<V> {
    *project
}

/// The lines of an export: the samples of all chunks, in order.
pub fn export_rows<V: Copy, M: SampleMath<V>>(
    project: Arc<ToolboxProject<V>>,
    chunks: &Vec<ReplayChunk>,
    math: &M,
) -> (result: ToolboxResult<Vec<ExportRow<V>>>)
    ensures
        match result {
            Ok(lines) => rule_defect(project.framer@) is None && is_export(
                math,
                *project,
                chunks@,
                lines@,
            ),
            Err(error) => {
                &&& rule_defect(project.framer@) matches Some(message)
                &&& error@ == failure(
                    ErrorCode::ProjectSchemaInvalid,
                    "pipeline.new"@,
                    "framer_invalid"@,
                ).because(message)
            },
        },
{
    let ghost plan = shared_project(project);
    let mut pipeline = match Pipeline::new(project) {
        Ok(pipeline) => pipeline,
        Err(error) => {
            return Err(error);
        },
    };
    let mut lines: Vec<ExportRow<V>> = Vec::new();
    let mut i: usize = 0;
    let ghost mut memory = PipelineMemory::<V>::fresh();
    assert(chunks@.take(0) =~= Seq::<ReplayChunk>::empty());
    assert(lines@ =~= Seq::<ExportRow<V>>::empty());
    while i < chunks.len()
        invariant
            i <= chunks@.len(),
            pipeline.wf(),
            pipeline.project() == plan,
            memory.framing == pipeline.framing(),
            memory.state == pipeline.state(),
            exported(math, plan, chunks@.take(i as int), lines@, memory),
        decreases chunks@.len() - i,
    {
        let played = &chunks[i];
        let ghost held = memory;
        let ghost before = lines@;
        let ghost longer = chunks@.take(i + 1);
        assert(longer.drop_last() =~= chunks@.take(i as int));
        assert(longer.last() == *played);
        let raw = played.to_raw();
        let output = pipeline.process(&raw, math);
        let mut k: usize = 0;
        assert(output.samples@.take(0) =~= Seq::<SampleView<V>>::empty());
        assert(lines@ =~= before + chunk_lines(*played, output.samples@.take(0)));
        while k < output.samples.len()
            invariant
                k <= output.samples@.len(),
                lines@ == before + chunk_lines(*played, output.samples@.take(k as int)),
            decreases output.samples@.len() - k,
        {
            lines.push(
                ExportRow {
                    session_offset_ns: played.session_offset_ns,
                    source_id: played.source_id,
                    source_epoch: played.source_epoch,
                    sample: output.samples[k],
                },
            );
            assert(lines@ =~= before + chunk_lines(*played, output.samples@.take(k + 1)));
            k += 1;
        }
        assert(output.samples@.take(output.samples@.len() as int) =~= output.samples@);
        proof {
            memory = PipelineMemory { framing: pipeline.framing(), state: pipeline.state() };
            assert(is_raw_of(raw, longer.last()));
            assert(chunk_processed(
                math,
                plan,
                raw,
                held.framing,
                held.state,
                output,
                memory.framing,
                memory.state,
            ));
            assert(lines@ == before.add(chunk_lines(longer.last(), output.samples@)));
        }
        i += 1;
    }
    assert(chunks@.take(i as int) =~= chunks@);
    assert(exported(math, plan, chunks@, lines@, memory));
    assert(is_export(math, plan, chunks@, lines@));
    Ok(lines)
}

/// A line says of a chunk when, and over which connection of which source, it came.
pub open spec fn stems_from<V>(line: ExportRow<V>, chunk: ReplayChunk) -> bool {
    &&& line.session_offset_ns == chunk.session_offset_ns
    &&& line.source_id == chunk.source_id
    &&& line.source_epoch == chunk.source_epoch
}

/// Each line stems from one of the chunks, and later lines stem from no earlier chunk.
pub open spec fn have_origins<V>(
    lines: Seq<ExportRow<V>>,
    chunks: Seq<ReplayChunk>,
    origins: Seq<int>,
) -> bool {
    &&& origins.len() == lines.len()
    &&& forall|i: int|
        0 <= i < lines.len() ==> {
            &&& 0 <= #[trigger] origins[i] < chunks.len()
            &&& stems_from(lines[i], chunks[origins[i]])
        }
    &&& forall|i: int, j: int|
        0 <= i <= j < origins.len() ==> #[trigger] origins[i] <= #[trigger] origins[j]
}

proof fn lemma_export_origins<V, M: SampleMath<V>>(
    math: &M,
    project: ToolboxProject<V>,
    chunks: Seq<ReplayChunk>,
    lines: Seq<ExportRow<V>>,
    after: PipelineMemory<V>,
) -> (origins: Seq<int>)
    requires
        exported(math, project, chunks, lines, after),
    ensures
        have_origins(lines, chunks, origins),
    decreases chunks.len(),
{
    if chunks.len() == 0 {
        Seq::empty()
    } else {
        let (before, held, raw, output) = choose|
            before: Seq<ExportRow<V>>,
            held: PipelineMemory<V>,
            raw: RawChunk,
            output: PipelineOutput<V>,
        |
            {
                &&& exported(math, project, chunks.drop_last(), before, held)
                &&& #[trigger] is_raw_of(raw, chunks.last())
                &&& #[trigger] chunk_processed(
                    math,
                    project,
                    raw,
                    held.framing,
                    held.state,
                    output,
                    after.framing,
                    after.state,
                )
                &&& lines == #[trigger] before.add(chunk_lines(chunks.last(), output.samples@))
            };
        let head = chunks.drop_last();
        let earlier = lemma_export_origins(math, project, head, before, held);
        let last = chunks.len() - 1;
        let origins = earlier + Seq::new(output.samples@.len(), |i: int| last);
        assert forall|i: int| 0 <= i < lines.len() implies {
            &&& 0 <= #[trigger] origins[i] < chunks.len()
            &&& stems_from(lines[i], chunks[origins[i]])
        } by {
            if i < before.len() {
                assert(origins[i] == earlier[i]);
                assert(lines[i] == before[i]);
                assert(chunks[origins[i]] == head[earlier[i]]);
            } else {
                assert(lines[i] == chunk_lines(chunks.last(), output.samples@)[i - before.len()]);
            }
        }
        assert forall|i: int, j: int| 0 <= i <= j < origins.len() implies #[trigger] origins[i]
            <= #[trigger] origins[j] by {
            if i < before.len() {
                assert(origins[i] == earlier[i]);
            }
            if j < before.len() {
                assert(origins[j] == earlier[j]);
            }
        }
        origins
    }
}

/// Every line of an export stems from one of the chunks of the recording, in their order: it
/// carries the time of that chunk, and its source and connection.
pub proof fn law_every_line_stems_from_a_chunk<V: Copy, M: SampleMath<V>>(
    math: &M,
    project: Arc<ToolboxProject<V>>,
    chunks: &Vec<ReplayChunk>,
    lines: Vec<ExportRow<V>>,
)
    requires
        call_ensures(
            export_rows::<V, M>,
            (project, chunks, math),
            Ok::<Vec<ExportRow<V>>, ToolboxError>(lines),
        ),
    ensures
        exists|origins: Seq<int>| #[trigger] have_origins(lines@, chunks@, origins),
        forall|i: int|
            0 <= i < lines@.len() ==> exists|k: int|
                0 <= k < chunks@.len() && stems_from(#[trigger] lines@[i], #[trigger] chunks@[k]),
{
    let after = choose|after: PipelineMemory<V>| #[trigger]
        exported(math, *project, chunks@, lines@, after);
    let origins = lemma_export_origins(math, shared_project(project), chunks@, lines@, after);
    assert(have_origins(lines@, chunks@, origins));
    assert forall|i: int| 0 <= i < lines@.len() implies exists|k: int|
        0 <= k < chunks@.len() && stems_from(#[trigger] lines@[i], #[trigger] chunks@[k]) by {
        let k = origins[i];
        assert(stems_from(lines@[i], chunks@[k]));
    }
}

/// The lines of a recording over a single connection all carry the number of that
/// connection.
pub proof fn law_one_connection_gives_one_epoch<V: Copy, M: SampleMath<V>>(
    math: &M,
    project: Arc<ToolboxProject<V>>,
    chunks: &Vec<ReplayChunk>,
    lines: Vec<ExportRow<V>>,
    source_id: Uuid,
    source_epoch: u64,
)
    requires
        call_ensures(
            export_rows::<V, M>,
            (project, chunks, math),
            Ok::<Vec<ExportRow<V>>, ToolboxError>(lines),
        ),
        forall|k: int|
            0 <= k < chunks@.len() ==> (#[trigger] chunks@[k]).source_epoch == source_epoch
                && chunks@[k].source_id == source_id,
    ensures
        forall|i: int|
            0 <= i < lines@.len() ==> (#[trigger] lines@[i]).source_epoch == source_epoch
                && lines@[i].source_id == source_id,
{
    law_every_line_stems_from_a_chunk(math, project, chunks, lines);
    assert forall|i: int| 0 <= i < lines@.len() implies (
    #[trigger] lines@[i]).source_epoch == source_epoch && lines@[i].source_id == source_id by {
        let k = choose|k: int|
            0 <= k < chunks@.len() && stems_from(lines@[i], #[trigger] chunks@[k]);
        assert(chunks@[k].source_epoch == source_epoch);
    }
}

/// All samples of outputs, one after the other.
pub open spec fn all_samples<V>(outputs: Seq<PipelineOutput<V>>) -> Seq<SampleView<V>>
    decreases outputs.len(),
{
    if outputs.len() == 0 {
        Seq::empty()
    } else {
        all_samples(outputs.drop_last()) + outputs.last().samples@
    }
}

/// A pipeline makes `output` of a recorded chunk.
pub open spec fn processed_as_recorded<V, M: SampleMath<V>>(
    math: &M,
    project: ToolboxProject<V>,
    chunk: ReplayChunk,
    raw: RawChunk,
    before: PipelineMemory<V>,
    output: PipelineOutput<V>,
    after: PipelineMemory<V>,
) -> bool {
    &&& raw.source_id == chunk.source_id
    &&& raw.direction == chunk.direction
    &&& raw.bytes@ == chunk.bytes@
    &&& raw.monotonic_offset_ns == chunk.monotonic_offset_ns
    &&& raw.gap_before == chunk.epoch_changed
    &&& chunk_processed(
        math,
        project,
        raw,
        before.framing,
        before.state,
        output,
        after.framing,
        after.state,
    )
}

/// `outputs` is what one pipeline makes of chunks that go through it as they were recorded.
pub open spec fn processed_in_turn<V, M: SampleMath<V>>(
    math: &M,
    project: ToolboxProject<V>,
    chunks: Seq<ReplayChunk>,
    raws: Seq<RawChunk>,
    memories: Seq<PipelineMemory<V>>,
    outputs: Seq<PipelineOutput<V>>,
) -> bool {
    &&& raws.len() == chunks.len()
    &&& outputs.len() == chunks.len()
    &&& memories.len() == chunks.len() + 1
    &&& memories[0] == PipelineMemory::<V>::fresh()
    &&& forall|i: int|
        #![trigger outputs[i]]
        0 <= i < chunks.len() ==> processed_as_recorded(
            math,
            project,
            chunks[i],
            raws[i],
            memories[i],
            outputs[i],
            memories[i + 1],
        )
}

proof fn lemma_run_goes_on<V, M: SampleMath<V>>(
    math: &M,
    project: ToolboxProject<V>,
    chunks: Seq<ReplayChunk>,
    raws: Seq<RawChunk>,
    memories: Seq<PipelineMemory<V>>,
    outputs: Seq<PipelineOutput<V>>,
    raw: RawChunk,
    output: PipelineOutput<V>,
    after: PipelineMemory<V>,
)
    requires
        chunks.len() > 0,
        processed_in_turn(math, project, chunks.drop_last(), raws, memories, outputs),
        processed_as_recorded(
            math,
            project,
            chunks.last(),
            raw,
            memories.last(),
            output,
            after,
        ),
    ensures
        processed_in_turn(
            math,
            project,
            chunks,
            raws.push(raw),
            memories.push(after),
            outputs.push(output),
        ),
{
    let head = chunks.drop_last();
    let longer = outputs.push(output);
    assert forall|i: int| #![trigger longer[i]] 0 <= i < chunks.len() implies processed_as_recorded(
        math,
        project,
        chunks[i],
        raws.push(raw)[i],
        memories.push(after)[i],
        longer[i],
        memories.push(after)[i + 1],
    ) by {
        if i < head.len() {
            assert(longer[i] == outputs[i]);
            assert(chunks[i] == head[i]);
        }
    }
}

proof fn lemma_export_samples<V, M: SampleMath<V>>(
    math: &M,
    project: ToolboxProject<V>,
    chunks: Seq<ReplayChunk>,
    lines: Seq<ExportRow<V>>,
    after: PipelineMemory<V>,
) -> (run: (Seq<RawChunk>, Seq<PipelineMemory<V>>, Seq<PipelineOutput<V>>))
    requires
        exported(math, project, chunks, lines, after),
    ensures
        processed_in_turn(math, project, chunks, run.0, run.1, run.2),
        run.1.last() == after,
        lines.map_values(|line: ExportRow<V>| line.sample) == all_samples(run.2),
    decreases chunks.len(),
{
    if chunks.len() == 0 {
        let run = (Seq::empty(), seq![after], Seq::empty());
        assert(lines.map_values(|line: ExportRow<V>| line.sample) =~= all_samples(run.2));
        run
    } else {
        let (before, held, raw, output) = choose|
            before: Seq<ExportRow<V>>,
            held: PipelineMemory<V>,
            raw: RawChunk,
            output: PipelineOutput<V>,
        |
            {
                &&& exported(math, project, chunks.drop_last(), before, held)
                &&& #[trigger] is_raw_of(raw, chunks.last())
                &&& #[trigger] chunk_processed(
                    math,
                    project,
                    raw,
                    held.framing,
                    held.state,
                    output,
                    after.framing,
                    after.state,
                )
                &&& lines == #[trigger] before.add(chunk_lines(chunks.last(), output.samples@))
            };
        let earlier = lemma_export_samples(math, project, chunks.drop_last(), before, held);
        lemma_run_goes_on(
            math,
            project,
            chunks,
            earlier.0,
            earlier.1,
            earlier.2,
            raw,
            output,
            after,
        );
        let outputs = earlier.2.push(output);
        assert(outputs.drop_last() =~= earlier.2);
        assert(lines.map_values(|line: ExportRow<V>| line.sample) =~= all_samples(outputs));
        (earlier.0.push(raw), earlier.1.push(after), outputs)
    }
}

/// An export holds just the samples that a pipeline gives when the recorded chunks go
/// through it, every one of them once and in order.
pub proof fn law_an_export_holds_all_samples<V: Copy, M: SampleMath<V>>(
    math: &M,
    project: Arc<ToolboxProject<V>>,
    chunks: &Vec<ReplayChunk>,
    lines: Vec<ExportRow<V>>,
)
    requires
        call_ensures(
            export_rows::<V, M>,
            (project, chunks, math),
            Ok::<Vec<ExportRow<V>>, ToolboxError>(lines),
        ),
    ensures
        exists|
            raws: Seq<RawChunk>,
            memories: Seq<PipelineMemory<V>>,
            outputs: Seq<PipelineOutput<V>>,
        |
            {
                &&& #[trigger] processed_in_turn(
                    math,
                    *project,
                    chunks@,
                    raws,
                    memories,
                    outputs,
                )
                &&& lines@.map_values(|line: ExportRow<V>| line.sample) == all_samples(outputs)
            },
{
    let after = choose|after: PipelineMemory<V>| #[trigger]
        exported(math, *project, chunks@, lines@, after);
    let run = lemma_export_samples(math, shared_project(project), chunks@, lines@, after);
    assert(processed_in_turn(math, *project, chunks@, run.0, run.1, run.2));
}

/// What was handed to a recording comes back as it was when the recording is played: from the
/// same source and connection, with the same number, time, direction and bytes. On the time
/// line of the session it stands behind the beginning of its connection by its own time. It
/// follows a gap where the chunk before came over another connection.
pub proof fn law_what_was_recorded_is_played_back(
    manager: &SessionManager,
    originals: &Vec<RawChunk>,
    stored: Vec<ChunkRow>,
    loaded: Vec<ReplayRow>,
    played: Vec<ReplayChunk>,
    i: int,
    chunk: RawChunk,
)
    requires
        call_ensures(SessionManager::append_batch, (manager, originals), Ok(Some(stored))),
        loaded@.len() == stored@.len(),
        forall|j: int|
            0 <= j < loaded@.len() ==> {
                &&& (#[trigger] loaded@[j]).source_id@ == stored@[j].source_id@
                &&& loaded@[j].source_epoch == stored@[j].source_epoch
                &&& loaded@[j].sequence == stored@[j].sequence
                &&& loaded@[j].monotonic_offset_ns == stored@[j].monotonic_offset_ns
                &&& loaded@[j].direction@ == stored@[j].direction@
                &&& loaded@[j].bytes@ == stored@[j].bytes@
            },
        call_ensures(replay_chunks, (loaded,), played),
        0 <= i < played@.len(),
        call_ensures(ReplayChunk::to_raw, (&played@[i],), chunk),
    ensures
        played@.len() == originals@.len(),
        chunk.source_id == originals@[i].source_id,
        chunk.source_epoch == originals@[i].source_epoch,
        chunk.sequence == originals@[i].sequence,
        chunk.monotonic_offset_ns == originals@[i].monotonic_offset_ns,
        chunk.direction == originals@[i].direction,
        chunk.bytes@ == originals@[i].bytes@,
        chunk.tx_job_id is None,
        played@[i].session_offset_ns - originals@[i].monotonic_offset_ns
            == loaded@[i].epoch_offset_ns,
        i == 0 ==> !chunk.gap_before,
        i > 0 ==> chunk.gap_before == (loaded@[i].ordinal != loaded@[i - 1].ordinal),
{
    let recorder = manager.recorder->Some_0;
    let epoch_id = recorder.current_epoch_id->Some_0;
    assert(holds_chunk(stored@[i], recorder.session_id, epoch_id, originals@[i]));
    assert(loaded@[i].source_id@ == stored@[i].source_id@);
    assert(plays_back(loaded@[i], ordinal_before(loaded@, i), played@[i]));
    law_recorded_chunks_play_back_unchanged(
        stored@[i],
        recorder.session_id,
        epoch_id,
        originals@[i],
        loaded@[i],
        ordinal_before(loaded@, i),
        played@[i],
    );
}

/// A recording begins with its first connection, whose chunks are then stored under its
/// session and its connection. Until it has ended, no other begins.
pub proof fn law_a_recording_begins<V: Copy>(
    idle: &SessionManager,
    manager: &mut SessionManager,
    state: &mut StateStore<V>,
    path: String,
    project: &ToolboxProject<V>,
    source: &SourceSnapshot,
    runtime_instance_id: Uuid,
    started_utc_ns: i64,
    anchor_ns: i64,
    plan: RecordingPlan,
    epoch: EpochRow,
    snapshot: SessionSnapshot,
    recording: &SessionManager,
    chunks: &Vec<RawChunk>,
    rows: ToolboxResult<Option<Vec<ChunkRow>>>,
    other_path: &String,
    again: ToolboxResult<()>,
)
    requires
        call_ensures(
            SessionManager::start::<V>,
            (idle, path, false, project, source, runtime_instance_id, started_utc_ns, anchor_ns),
            Ok(plan),
        ),
        plan.epoch == Ok::<EpochRow, ToolboxError>(epoch),
        call_ensures(
            SessionManager::started::<V>,
            (manager, plan.recorder, epoch, state),
            snapshot,
        ),
        *recording == *final(manager),
        chunks@.len() > 0,
        call_ensures(SessionManager::append_batch, (recording, chunks), rows),
        call_ensures(SessionManager::admit_start, (recording, other_path, false, source), again),
    ensures
        source.status == SourceStatus::Connected,
        snapshot.status == SessionStatus::Recording,
        snapshot.session_id == Some(plan.recorder.session_id),
        snapshot.path == Some(path),
        snapshot.epoch_ordinal == Some(1u32),
        snapshot.bytes_written == 0,
        snapshot.message is None,
        !snapshot.checkpoint_pending,
        recording.current == snapshot,
        recording.recorder is Some,
        recording.recorder->Some_0.path == path,
        recording.recorder->Some_0.current_epoch_id == source.epoch_id,
        recording.recorder->Some_0.session_anchor_monotonic_ns == anchor_ns,
        recording.recorder->Some_0.runtime_instance_id == runtime_instance_id,
        plan.session.started_utc_ns == started_utc_ns,
        plan.session.monotonic_anchor_ns == anchor_ns,
        plan.session.id@ == epoch.session_id@,
        plan.session.runtime_instance_id@ == epoch.runtime_instance_id@,
        plan.session.project_schema_version@ == project.project_schema_version@,
        plan.session.pipeline_semantic_version@ == project.pipeline_semantic_version@,
        epoch.ordinal == 1,
        epoch.endpoint@ == source.endpoint@,
        epoch.identity.source_id == source.source_id,
        epoch.identity.source_epoch == source.source_epoch,
        Some(epoch.identity.epoch_id) == source.epoch_id,
        source.clock_anchor is Some,
        epoch.session_offset_ns + anchor_ns == source.clock_anchor->Some_0.monotonic_anchor_ns,
        epoch.monotonic_anchor_ns == source.clock_anchor->Some_0.monotonic_anchor_ns,
        epoch.utc_anchor_ns == source.clock_anchor->Some_0.utc_anchor_unix_ns,
        rows is Ok && rows->Ok_0 is Some,
        rows->Ok_0->Some_0@.len() == chunks@.len(),
        forall|i: int|
            0 <= i < chunks@.len() ==> {
                &&& (#[trigger] rows->Ok_0->Some_0@[i]).session_id@ == epoch.session_id@
                &&& rows->Ok_0->Some_0@[i].epoch_id@ == epoch.id@
                &&& rows->Ok_0->Some_0@[i].bytes@ == chunks@[i].bytes@
                &&& rows->Ok_0->Some_0@[i].tx_job_id is Some == chunks@[i].tx_job_id is Some
                &&& chunks@[i].tx_job_id is Some ==> rows->Ok_0->Some_0@[i].tx_job_id->Some_0@
                    == uuid_to_text(chunks@[i].tx_job_id->Some_0.value)
            },
        epoch.session_id@ == uuid_to_text(plan.recorder.session_id.value),
        source.epoch_id is Some && epoch.id@ == uuid_to_text(source.epoch_id->Some_0.value),
        epoch.source_id@ == uuid_to_text(source.source_id.value),
        source.source_epoch <= i64::MAX ==> epoch.source_epoch == source.source_epoch,
        again is Err,
        again->Err_0.message_key@ == "session_already_active"@,
        final(state)@.session == Arc::new(snapshot),
        final(state)@.recent.last().event_type@ == "session.started"@,
{
}

/// Rows that are committed count by their bytes: no row counts nothing, a row counts as many
/// bytes as it holds, and rows count alike however they are divided. What is shown is what
/// was counted.
pub proof fn law_recorded_bytes_add_up(
    whole: &mut SessionManager,
    first: &mut SessionManager,
    second: &mut SessionManager,
    shown: &mut SessionManager,
    rows: &Vec<ChunkRow>,
    left: &Vec<ChunkRow>,
    right: &Vec<ChunkRow>,
)
    requires
        old(whole).recorder is Some,
        old(whole).recorder->Some_0.bytes_written + row_bytes(rows@) <= u64::MAX,
        rows@ == left@ + right@,
        *old(first) == *old(whole),
        *old(second) == *final(first),
        *old(shown) == *final(second),
        call_ensures(SessionManager::appended, (whole, rows), ()),
        call_ensures(SessionManager::appended, (first, left), ()),
        call_ensures(SessionManager::appended, (second, right), ()),
        call_ensures(SessionManager::show_bytes_written, (shown,), ()),
    ensures
        final(whole).recorder == final(second).recorder,
        final(first).recorder is Some,
        left@.len() == 0 ==> final(first).recorder == old(first).recorder,
        left@.len() == 1 ==> final(first).recorder->Some_0.bytes_written
            == old(first).recorder->Some_0.bytes_written + left@[0].bytes@.len(),
        final(whole).current == old(whole).current,
        final(shown).recorder == final(whole).recorder,
        final(shown).current.bytes_written == final(whole).recorder->Some_0.bytes_written,
        final(shown).current.status == old(whole).current.status,
{
    lemma_row_bytes_add(left@, right@);
    if left@.len() == 1 {
        reveal_with_fuel(row_bytes, 2);
        assert(left@.drop_last() =~= Seq::<ChunkRow>::empty());
        assert(left@.last() == left@[0]);
    }
}

proof fn lemma_row_bytes_add(left: Seq<ChunkRow>, right: Seq<ChunkRow>)
    ensures
        row_bytes(left + right) == row_bytes(left) + row_bytes(right),
    decreases right.len(),
{
    if right.len() == 0 {
        assert(left + right =~= left);
    } else {
        assert((left + right).drop_last() =~= left + right.drop_last());
        assert((left + right).last() == right.last());
        lemma_row_bytes_add(left, right.drop_last());
    }
}

/// A recording goes on after its source was away, as the same session with the same bytes
/// counted, over a connection of its own number. While the source is away, nothing is stored.
pub proof fn law_a_recording_goes_on<V: Copy>(
    ending: &mut SessionManager,
    waiting: &mut SessionManager,
    coming: &mut SessionManager,
    back: &mut SessionManager,
    away: &mut StateStore<V>,
    state: &mut StateStore<V>,
    reason: &str,
    source: &SourceSnapshot,
    end: EpochEnd,
    epoch: EpochRow,
    suspended: &SessionManager,
    chunks: &Vec<RawChunk>,
    meanwhile: ToolboxResult<Option<Vec<ChunkRow>>>,
)
    requires
        old(ending).recorder is Some,
        old(ending).recorder->Some_0.epoch_ordinal < u32::MAX,
        call_ensures(SessionManager::suspend_epoch, (ending,), Ok(Some(end))),
        *old(waiting) == *final(ending),
        call_ensures(SessionManager::suspended::<V>, (waiting, reason, away), ()),
        *suspended == *final(waiting),
        call_ensures(SessionManager::append_batch, (suspended, chunks), meanwhile),
        *old(coming) == *final(waiting),
        call_ensures(SessionManager::resume_epoch, (coming, source), Ok(Some(epoch))),
        *old(back) == *final(coming),
        call_ensures(SessionManager::resumed::<V>, (back, epoch, state), ()),
    ensures
        old(ending).current.status == SessionStatus::Recording,
        end.session_id@ == epoch.session_id@,
        old(ending).recorder->Some_0.current_epoch_id is None ==> end.epoch_id is None,
        old(ending).recorder->Some_0.current_epoch_id is Some ==> end.epoch_id is Some
            && end.epoch_id->Some_0@ == uuid_to_text(
            old(ending).recorder->Some_0.current_epoch_id->Some_0.value,
        ),
        suspended.current.status == SessionStatus::Suspended,
        suspended.current.message is Some,
        suspended.current.message->Some_0@ == reason@,
        suspended.recorder->Some_0.current_epoch_id is None,
        meanwhile == Ok::<Option<Vec<ChunkRow>>, ToolboxError>(None),
        epoch.ordinal == old(ending).recorder->Some_0.epoch_ordinal + 1,
        Some(epoch.identity.epoch_id) == source.epoch_id,
        epoch.identity.source_epoch == source.source_epoch,
        source.clock_anchor is Some,
        epoch.session_offset_ns + old(ending).recorder->Some_0.session_anchor_monotonic_ns
            == source.clock_anchor->Some_0.monotonic_anchor_ns,
        final(back).recorder is Some,
        final(back).recorder->Some_0 == (Recorder {
            current_epoch_id: source.epoch_id,
            epoch_ordinal: epoch.ordinal,
            ..old(ending).recorder->Some_0
        }),
        final(back).current == (SessionSnapshot {
            epoch_ordinal: Some(epoch.ordinal),
            message: None,
            ..old(ending).current
        }),
        final(away)@.recent.last().event_type@ == "session.suspended"@,
        final(away)@.session == Arc::new(suspended.current),
        final(state)@.recent.last().event_type@ == "session.resumed"@,
        final(state)@.session == Arc::new(final(back).current),
{
}

/// A recording ends with as many bytes as were counted, whether its log could be merged or
/// not, and is then closed: it can be exported, no more is stored, it cannot end twice, and
/// another can begin.
pub proof fn law_a_recording_ends<V: Copy>(
    manager: &mut SessionManager,
    ended: &mut SessionManager,
    finalizing_state: &mut StateStore<V>,
    state: &mut StateStore<V>,
    plan: StopPlan,
    checkpoint: ToolboxResult<()>,
    result: ToolboxResult<SessionSnapshot>,
    closed: &SessionManager,
    chunks: &Vec<RawChunk>,
    later: ToolboxResult<Option<Vec<ChunkRow>>>,
    path: &String,
    source: &SourceSnapshot,
    next: ToolboxResult<()>,
    exported: ToolboxResult<()>,
)
    requires
        call_ensures(SessionManager::stop::<V>, (manager, finalizing_state), Ok(plan)),
        *old(ended) == *final(manager),
        call_ensures(
            SessionManager::stopped::<V>,
            (ended, plan.recorder, checkpoint, state),
            result,
        ),
        *closed == *final(ended),
        call_ensures(SessionManager::append_batch, (closed, chunks), later),
        source.status == SourceStatus::Connected,
        call_ensures(SessionManager::admit_start, (closed, path, false, source), next),
        call_ensures(SessionManager::admit_export, (closed, path), exported),
    ensures
        old(manager).recorder == Some(plan.recorder),
        plan.recorder.bytes_written <= i64::MAX ==> plan.bytes_written
            == plan.recorder.bytes_written,
        plan.epoch_id is Some == plan.recorder.current_epoch_id is Some,
        plan.epoch_id is Some ==> plan.epoch_id->Some_0@ == uuid_to_text(
            plan.recorder.current_epoch_id->Some_0.value,
        ),
        plan.session_id@ == uuid_to_text(plan.recorder.session_id.value),
        final(manager).current.status == SessionStatus::Finalizing,
        final(manager).current.checkpoint_pending,
        closed.recorder is None,
        closed.current.status == SessionStatus::Closed,
        closed.current.session_id == Some(plan.recorder.session_id),
        closed.current.path == Some(plan.recorder.path),
        closed.current.epoch_ordinal is None,
        closed.current.bytes_written == plan.recorder.bytes_written,
        closed.current.checkpoint_pending == checkpoint is Err,
        checkpoint is Ok ==> result == Ok::<SessionSnapshot, ToolboxError>(closed.current),
        checkpoint is Err ==> result == Err::<SessionSnapshot, ToolboxError>(
            checkpoint->Err_0,
        ),
        later == Ok::<Option<Vec<ChunkRow>>, ToolboxError>(None),
        next is Ok,
        exported is Ok,
        final(finalizing_state)@.recent.last().event_type@ == "session.finalizing"@,
        final(state)@.recent.last().event_type@ == "session.closed"@,
        final(state)@.session == Arc::new(closed.current),
{
}

/// A recording ends only where one has begun; one that failed can still be ended. It is not
/// exported before it has ended, however its status is.
pub proof fn law_only_a_recording_ends<V: Copy>(
    manager: &mut SessionManager,
    state: &mut StateStore<V>,
    result: ToolboxResult<StopPlan>,
    before: &SessionManager,
    path: &String,
    exported: ToolboxResult<()>,
    failing: &mut SessionManager,
    failed_state: &mut StateStore<V>,
    error: &ToolboxError,
)
    requires
        call_ensures(SessionManager::stop::<V>, (manager, state), result),
        *before == *old(manager),
        *old(failing) == *old(manager),
        before.current.path is Some,
        before.current.path->Some_0@ == path@,
        call_ensures(SessionManager::admit_export, (before, path), exported),
        old(failed_state).wf(),
        call_ensures(
            SessionManager::fail_recording::<V>,
            (failing, error, failed_state),
            (),
        ),
    ensures
        before.current.status == SessionStatus::Idle || before.current.status
            == SessionStatus::Closed || before.current.status == SessionStatus::Interrupted ==> {
            &&& result is Err
            &&& exported is Ok
            &&& *final(manager) == *before
            &&& *final(failing) == *before
            &&& final(state)@ == old(state)@
            &&& final(failed_state)@ == old(failed_state)@
        },
        before.current.status == SessionStatus::Failed ==> {
            &&& result is Ok == before.recorder is Some
            &&& exported is Ok
            &&& *final(failing) == *before
        },
        before.current.status == SessionStatus::Recording || before.current.status
            == SessionStatus::Suspended || before.current.status == SessionStatus::Finalizing ==> {
            &&& result is Ok == before.recorder is Some
            &&& exported is Err
            &&& final(failing).current.status == SessionStatus::Failed
            &&& final(failing).current.message is Some
            &&& final(failing).current.message->Some_0@ == error.code@
            &&& final(failing).recorder == before.recorder
            &&& final(failing).current.bytes_written == before.current.bytes_written
            &&& final(failed_state)@.session == Arc::new(final(failing).current)
            &&& final(failed_state)@.errors.last()@ == error@
        },
{
}

/// The log of a recording is merged every thirty seconds, or sooner once it holds thirty-two
/// mebibytes. At the end that is tried again until it is done or time is up.
pub proof fn law_a_log_is_merged_in_time(
    elapsed_ns: u64,
    wal_bytes: u64,
    due: bool,
    busy: i64,
    frames: i64,
    merged: i64,
    budget_ns: u64,
    verdict: CheckpointVerdict,
)
    requires
        call_ensures(should_checkpoint, (elapsed_ns, wal_bytes), due),
        call_ensures(checkpoint_verdict, (busy, frames, merged, elapsed_ns, budget_ns), verdict),
    ensures
        due <==> elapsed_ns >= 30 * 1_000_000_000 || wal_bytes >= 32 * 1024 * 1024,
        verdict is Done <==> busy == 0 && merged == frames,
        verdict is Retry <==> (busy != 0 || merged != frames) && elapsed_ns < budget_ns,
        verdict is GiveUp ==> {
            &&& verdict->GiveUp_0.message_key@ == "checkpoint_busy"@
            &&& verdict->GiveUp_0@.context == Map::<Seq<char>, ContextData>::empty().insert(
                "busy"@,
                ContextData::Signed(busy),
            ).insert("logFrames"@, ContextData::Signed(frames)).insert(
                "checkpointedFrames"@,
                ContextData::Signed(merged),
            )
        },
        CHECKPOINT_STOP_BUDGET_NS == 5 * 1_000_000_000,
        CHECKPOINT_RETRY_NS == 100 * 1_000_000,
{
}

/// A time is stored as nanoseconds, as many as fit.
pub proof fn law_times_are_stored_as_far_as_they_fit(
    nanoseconds: u128,
    clamped: i64,
    later: u128,
    later_clamped: i64,
    read: i64,
    unread: i64,
)
    requires
        call_ensures(clamp_ns, (nanoseconds,), clamped),
        call_ensures(clamp_ns, (later,), later_clamped),
        call_ensures(time_of_reading, (Some(nanoseconds),), read),
        call_ensures(time_of_reading, (None,), unread),
    ensures
        nanoseconds <= 0x7fff_ffff_ffff_ffff ==> clamped == nanoseconds,
        clamped <= nanoseconds,
        nanoseconds <= later ==> clamped <= later_clamped,
        nanoseconds > 0x7fff_ffff_ffff_ffff ==> clamped == 0x7fff_ffff_ffff_ffff,
        read == clamped,
        unread == 0,
{
}

/// A connection that ends while it is recorded leaves a mark that names it and says why.
pub proof fn law_a_gap_is_marked<V>(
    end: &EpochEnd,
    source_id: Uuid,
    source_epoch: u64,
    reason: &str,
    row: Option<GapRow<V>>,
)
    requires
        call_ensures(EpochEnd::gap_row::<V>, (end, source_id, source_epoch, reason), row),
    ensures
        row is Some == end.epoch_id is Some,
        row is Some ==> {
            &&& row->Some_0.session_id@ == end.session_id@
            &&& row->Some_0.epoch_id@ == end.epoch_id->Some_0@
            &&& row->Some_0.end_reason@ == reason@
            &&& row->Some_0.event_type@ == "StreamGap"@
            &&& row->Some_0.payload is Fields
            &&& fields_data(row->Some_0.payload->Fields_0@).len() == 3
            &&& fields_data(row->Some_0.payload->Fields_0@).contains(
                ("sourceId"@, EventDatum::<V>::Id(source_id)),
            )
            &&& fields_data(row->Some_0.payload->Fields_0@).contains(
                ("sourceEpoch"@, EventDatum::<V>::Unsigned(source_epoch)),
            )
            &&& fields_data(row->Some_0.payload->Fields_0@).contains(
                ("reason"@, EventDatum::<V>::Text(reason@)),
            )
        },
{
    if row is Some {
        let data = fields_data(row->Some_0.payload->Fields_0@);
        assert(data[0] == ("sourceId"@, EventDatum::<V>::Id(source_id)));
        assert(data[1] == ("sourceEpoch"@, EventDatum::<V>::Unsigned(source_epoch)));
        assert(data[2] == ("reason"@, EventDatum::<V>::Text(reason@)));
    }
}

/// A line of an export gives, between commas, the time, the source, its connection, the
/// number of the frame, the channel and the value, in the order that the first line names.
pub proof fn law_a_line_has_its_columns<V>(
    row: &ExportRow<V>,
    value: &str,
    line: String,
    source: String,
    channel: String,
    header: String,
)
    requires
        call_ensures(ExportRow::<V>::line, (row, value), line),
        call_ensures(Uuid::to_text, (&row.source_id,), source),
        call_ensures(Uuid::to_text, (&row.sample.channel_id,), channel),
        call_ensures(export_header, (), header),
    ensures
        line@ == signed_decimal(row.session_offset_ns as int).push(',') + source@.push(',')
            + decimal(row.source_epoch as nat).push(',') + decimal(
            row.sample.frame_sequence as nat,
        ).push(',') + channel@.push(',') + value@,
        header@ == "session_time_ns"@.push(',') + "source_id"@.push(',') + "source_epoch"@.push(
            ',',
        ) + "frame_sequence"@.push(',') + "channel_id"@.push(',') + "value"@,
{
    reveal_strlit(",");
    reveal_strlit("session_time_ns");
    reveal_strlit("source_id");
    reveal_strlit("source_epoch");
    reveal_strlit("frame_sequence");
    reveal_strlit("channel_id");
    reveal_strlit("value");
    reveal_strlit("session_time_ns,source_id,source_epoch,frame_sequence,channel_id,value");
    assert(","@ =~= seq![',']);
    assert(line@ =~= signed_decimal(row.session_offset_ns as int).push(',') + source@.push(',')
        + decimal(row.source_epoch as nat).push(',') + decimal(
        row.sample.frame_sequence as nat,
    ).push(',') + channel@.push(',') + value@);
    assert(header@ =~= "session_time_ns"@.push(',') + "source_id"@.push(',') + "source_epoch"@.push(
        ',',
    ) + "frame_sequence"@.push(',') + "channel_id"@.push(',') + "value"@);
}

/// A session is under way while it is recorded, suspended or being closed, and is recorded at
/// the path that it was started with. Recordings of this version can be played, no others.
pub proof fn law_a_session_is_under_way(
    manager: &SessionManager,
    active_now: bool,
    path: &String,
    there: bool,
    version: &String,
    playable: ToolboxResult<()>,
)
    requires
        call_ensures(SessionManager::is_active, (manager,), active_now),
        call_ensures(SessionManager::is_recording_to, (manager, path), there),
        call_ensures(check_pipeline_version, (version,), playable),
    ensures
        active_now <==> manager.current.status == SessionStatus::Recording
            || manager.current.status == SessionStatus::Suspended || manager.current.status
            == SessionStatus::Finalizing,
        there <==> active_now && manager.current.path is Some
            && manager.current.path->Some_0@ == path@,
        playable is Ok <==> version@ == "1.0.0"@,
        playable is Err ==> playable->Err_0.message_key@ == "pipeline_version_unsupported"@,
{
}

/// Directions are stored under their names.
pub proof fn law_directions_are_stored_by_name(direction: Direction, text: &'static str)
    requires
        call_ensures(direction_text, (direction,), text),
    ensures
        direction == Direction::Rx ==> text@ == "Rx"@,
        direction == Direction::Tx ==> text@ == "Tx"@,
{
}

} // verus!
