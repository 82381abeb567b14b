//! The data that the toolbox exchanges: configuration, snapshots and messages.
//!
//! Sample values and other real numbers have the type parameter `V`: the
//! application chooses how it represents them.

use crate::error::ToolboxError;
use crate::ident::{variant_bits, version_bits, Uuid};
use crate::idmap::IdMap;
use std::sync::Arc;
use vstd::prelude::*;

verus! {

pub const PROJECT_SCHEMA_VERSION: &'static str = "1.0.0";

pub const PIPELINE_SEMANTIC_VERSION: &'static str = "1.0.0";

pub const APP_VERSION: &'static str = "1.0.0";

/// Makes one more owner of a shared value. Calls `Arc::clone`, which points to
/// the same allocation.
#[verifier::external_body]
pub(crate) fn share<T>(value: &Arc<T>) -> (other: Arc<T>)
    ensures
        other == *value,
{
    Arc::clone(value)
}

#[derive(Debug, Clone, Copy, PartialEq, Eq, Structural)]
pub enum Direction {
    Rx,
    Tx,
}

/// Bytes as they passed the transport in one piece.
#[derive(Debug)]
pub struct RawChunk {
    pub source_id: Uuid,
    pub source_epoch: u64,
    pub sequence: u64,
    pub monotonic_offset_ns: i64,
    pub direction: Direction,
    pub bytes: Arc<Vec<u8>>,
    pub gap_before: bool,
    pub tx_job_id: Option<Uuid>,
}

impl Clone for RawChunk {
    fn clone(&self) -> (chunk: RawChunk)
        ensures
            chunk == *self,
    {
        RawChunk {
            source_id: self.source_id,
            source_epoch: self.source_epoch,
            sequence: self.sequence,
            monotonic_offset_ns: self.monotonic_offset_ns,
            direction: self.direction,
            bytes: share(&self.bytes),
            gap_before: self.gap_before,
            tx_job_id: self.tx_job_id,
        }
    }
}

/// Wall-clock and monotonic time taken together.
#[derive(Debug, Clone, Copy, PartialEq, Eq, Structural)]
pub struct ClockAnchor {
    pub utc_anchor_unix_ns: i64,
    pub monotonic_anchor_ns: i64,
}

/// What tells one connection of a source from every other.
#[derive(Debug, Clone, Copy, PartialEq, Eq)]
pub struct EpochIdentity {
    pub epoch_id: Uuid,
    pub runtime_instance_id: Uuid,
    pub source_id: Uuid,
    pub source_epoch: u64,
    pub session_epoch_ordinal: Option<u32>,
}

#[derive(Debug, Clone, Copy, PartialEq, Eq, Structural)]
pub enum Parity {
    Off,
    Odd,
    Even,
}

#[derive(Debug, Clone, Copy, PartialEq, Eq, Structural)]
pub enum FlowControl {
    Off,
    Software,
    Hardware,
}

#[derive(Debug)]
pub struct SerialConfig {
    pub id: Uuid,
    pub port_name: String,
    pub baud_rate: u32,
    pub data_bits: u8,
    pub stop_bits: u8,
    pub parity: Parity,
    pub flow_control: FlowControl,
    pub timeout_ms: u64,
}

impl Clone for SerialConfig {
    fn clone(&self) -> (config: SerialConfig)
        ensures
            config == *self,
    {
        SerialConfig {
            id: self.id,
            port_name: self.port_name.clone(),
            baud_rate: self.baud_rate,
            data_bits: self.data_bits,
            stop_bits: self.stop_bits,
            parity: self.parity,
            flow_control: self.flow_control,
            timeout_ms: self.timeout_ms,
        }
    }
}

impl Default for SerialConfig {
    /// 115200 baud, eight data bits, one stop bit, no parity, no flow control,
    /// on a port that is still to be chosen.
    fn default() -> (config: SerialConfig)
        ensures
            version_bits(config.id.value) == 7,
            variant_bits(config.id.value) == 2,
            config.port_name@ == Seq::<char>::empty(),
            config.baud_rate == 115_200,
            config.data_bits == 8,
            config.stop_bits == 1,
            config.parity == Parity::Off,
            config.flow_control == FlowControl::Off,
            config.timeout_ms == 20,
    {
        SerialConfig {
            id: Uuid::now_v7(),
            port_name: String::new(),
            baud_rate: 115_200,
            data_bits: 8,
            stop_bits: 1,
            parity: Parity::Off,
            flow_control: FlowControl::Off,
            timeout_ms: 20,
        }
    }
}

/// A serial port as the system reports it.
#[derive(Debug)]
pub struct SerialPortDescriptor {
    pub name: String,
    pub kind: String,
    pub vid: Option<u16>,
    pub pid: Option<u16>,
    pub manufacturer: Option<String>,
    pub product: Option<String>,
    pub serial_number: Option<String>,
}

impl Clone for SerialPortDescriptor {
    fn clone(&self) -> (port: SerialPortDescriptor)
        ensures
            port == *self,
    {
        SerialPortDescriptor {
            name: self.name.clone(),
            kind: self.kind.clone(),
            vid: self.vid,
            pid: self.pid,
            manufacturer: self.manufacturer.clone(),
            product: self.product.clone(),
            serial_number: self.serial_number.clone(),
        }
    }
}

/// Which faults the synthetic transport injects, and how often.
#[derive(Debug, Clone, Copy, PartialEq, Eq)]
pub struct FaultPlan {
    pub disconnect_after_frames: Option<u64>,
    pub corrupt_every_frames: Option<u64>,
    pub drop_every_frames: Option<u64>,
    pub duplicate_every_frames: Option<u64>,
    pub stall_every_frames: Option<u64>,
    pub burst_every_frames: Option<u64>,
    pub fragment_max_bytes: Option<usize>,
    pub fail_write_every_jobs: Option<u64>,
    pub partial_write_every_jobs: Option<u64>,
}

/// The plan that injects nothing.
pub open spec fn no_faults() -> FaultPlan {
    FaultPlan {
        disconnect_after_frames: None,
        corrupt_every_frames: None,
        drop_every_frames: None,
        duplicate_every_frames: None,
        stall_every_frames: None,
        burst_every_frames: None,
        fragment_max_bytes: None,
        fail_write_every_jobs: None,
        partial_write_every_jobs: None,
    }
}

impl Default for FaultPlan {
    fn default() -> (plan: FaultPlan)
        ensures
            plan == no_faults(),
    {
        FaultPlan {
            disconnect_after_frames: None,
            corrupt_every_frames: None,
            drop_every_frames: None,
            duplicate_every_frames: None,
            stall_every_frames: None,
            burst_every_frames: None,
            fragment_max_bytes: None,
            fail_write_every_jobs: None,
            partial_write_every_jobs: None,
        }
    }
}

#[derive(Debug, Clone, Copy, PartialEq, Eq)]
pub struct SyntheticConfig {
    pub rate_hz: u32,
    pub seed: u64,
    pub faults: FaultPlan,
}

impl Default for SyntheticConfig {
    fn default() -> (config: SyntheticConfig)
        ensures
            config == (SyntheticConfig { rate_hz: 50, seed: 0x5eed, faults: no_faults() }),
    {
        SyntheticConfig { rate_hz: 50, seed: 0x5eed, faults: FaultPlan::default() }
    }
}

#[derive(Debug, Clone, Copy, PartialEq, Eq, Structural)]
pub enum ByteOrder {
    Little,
    Big,
}

/// How a byte stream is cut into frames.
#[derive(Debug)]
pub enum FramerSpec {
    EndDelimiter { id: Uuid, delimiter: Vec<u8>, max_frame_bytes: usize },
    StartEnd { id: Uuid, start: Vec<u8>, end: Vec<u8>, max_frame_bytes: usize },
    FixedLength { id: Uuid, length: usize, max_frame_bytes: usize },
    LengthField {
        id: Uuid,
        sync_prefix: Vec<u8>,
        length_offset: usize,
        length_width: usize,
        byte_order: ByteOrder,
        length_adjustment: i32,
        max_frame_bytes: usize,
    },
}

/// The rule that a `FramerSpec` states.
#[verifier::ext_equal]
pub enum FramerRule {
    EndDelimiter { delimiter: Seq<u8>, max: nat },
    StartEnd { start: Seq<u8>, end: Seq<u8>, max: nat },
    FixedLength { length: nat, max: nat },
    LengthField {
        sync: Seq<u8>,
        offset: nat,
        width: nat,
        order: ByteOrder,
        adjustment: int,
        max: nat,
    },
}

impl View for FramerSpec {
    type V = FramerRule;

    open spec fn view(&self) -> FramerRule {
        match self {
            FramerSpec::EndDelimiter { delimiter, max_frame_bytes, .. } => FramerRule::EndDelimiter {
                delimiter: delimiter@,
                max: *max_frame_bytes as nat,
            },
            FramerSpec::StartEnd { start, end, max_frame_bytes, .. } => FramerRule::StartEnd {
                start: start@,
                end: end@,
                max: *max_frame_bytes as nat,
            },
            FramerSpec::FixedLength { length, max_frame_bytes, .. } => FramerRule::FixedLength {
                length: *length as nat,
                max: *max_frame_bytes as nat,
            },
            FramerSpec::LengthField {
                sync_prefix,
                length_offset,
                length_width,
                byte_order,
                length_adjustment,
                max_frame_bytes,
                ..
            } => FramerRule::LengthField {
                sync: sync_prefix@,
                offset: *length_offset as nat,
                width: *length_width as nat,
                order: *byte_order,
                adjustment: *length_adjustment as int,
                max: *max_frame_bytes as nat,
            },
        }
    }
}

impl FramerRule {
    /// The longest payload that a frame may have.
    pub open spec fn max_frame_bytes(self) -> nat {
        match self {
            FramerRule::EndDelimiter { max, .. } => max,
            FramerRule::StartEnd { max, .. } => max,
            FramerRule::FixedLength { max, .. } => max,
            FramerRule::LengthField { max, .. } => max,
        }
    }
}

impl FramerSpec {
    /// The identifier of the framing rule.
    pub open spec fn id_spec(&self) -> Uuid {
        match self {
            FramerSpec::EndDelimiter { id, .. } => *id,
            FramerSpec::StartEnd { id, .. } => *id,
            FramerSpec::FixedLength { id, .. } => *id,
            FramerSpec::LengthField { id, .. } => *id,
        }
    }

    /// The identifier of the framing rule.
    pub fn id(&self) -> (id: Uuid)
        ensures
            id == self.id_spec(),
    {
        match self {
            FramerSpec::EndDelimiter { id, .. } => *id,
            FramerSpec::StartEnd { id, .. } => *id,
            FramerSpec::FixedLength { id, .. } => *id,
            FramerSpec::LengthField { id, .. } => *id,
        }
    }

    /// The longest payload that a frame may have.
    pub fn max_frame_bytes(&self) -> (max: usize)
        ensures
            max == self@.max_frame_bytes(),
    {
        match self {
            FramerSpec::EndDelimiter { max_frame_bytes, .. } => *max_frame_bytes,
            FramerSpec::StartEnd { max_frame_bytes, .. } => *max_frame_bytes,
            FramerSpec::FixedLength { max_frame_bytes, .. } => *max_frame_bytes,
            FramerSpec::LengthField { max_frame_bytes, .. } => *max_frame_bytes,
        }
    }
}

/// A copy of a byte vector.
pub(crate) fn copy_bytes(bytes: &Vec<u8>) -> (copy: Vec<u8>)
    ensures
        copy@ == bytes@,
{
    let copy = bytes.clone();
    assert(copy@ =~= bytes@);
    copy
}

impl Clone for FramerSpec {
    fn clone(&self) -> (spec: FramerSpec)
        ensures
            spec@ == self@,
            spec.id_spec() == self.id_spec(),
    {
        match self {
            FramerSpec::EndDelimiter { id, delimiter, max_frame_bytes } => FramerSpec::EndDelimiter {
                id: *id,
                delimiter: copy_bytes(delimiter),
                max_frame_bytes: *max_frame_bytes,
            },
            FramerSpec::StartEnd { id, start, end, max_frame_bytes } => FramerSpec::StartEnd {
                id: *id,
                start: copy_bytes(start),
                end: copy_bytes(end),
                max_frame_bytes: *max_frame_bytes,
            },
            FramerSpec::FixedLength { id, length, max_frame_bytes } => FramerSpec::FixedLength {
                id: *id,
                length: *length,
                max_frame_bytes: *max_frame_bytes,
            },
            FramerSpec::LengthField {
                id,
                sync_prefix,
                length_offset,
                length_width,
                byte_order,
                length_adjustment,
                max_frame_bytes,
            } => FramerSpec::LengthField {
                id: *id,
                sync_prefix: copy_bytes(sync_prefix),
                length_offset: *length_offset,
                length_width: *length_width,
                byte_order: *byte_order,
                length_adjustment: *length_adjustment,
                max_frame_bytes: *max_frame_bytes,
            },
        }
    }
}

#[derive(Debug, Clone, Copy, PartialEq, Eq, Structural)]
pub enum ChecksumAlgorithm {
    Xor8,
    Sum8,
    Crc8,
    Crc16Modbus,
    Crc16Ccitt,
    Crc32,
}

/// Which bytes of a frame are summed, and where the sum is stored.
#[derive(Debug, Clone, Copy, PartialEq, Eq, Structural)]
pub struct ChecksumSpec {
    pub id: Uuid,
    pub algorithm: ChecksumAlgorithm,
    pub start_offset: usize,
    pub end_offset_exclusive: usize,
    pub stored_offset: usize,
    pub stored_width: usize,
    pub byte_order: ByteOrder,
}

#[derive(Debug, Clone, Copy, PartialEq, Eq, Structural)]
pub enum FieldType {
    U8,
    I8,
    U16,
    I16,
    U32,
    I32,
    F32,
    F64,
}

/// A number at a fixed place of a binary frame.
#[derive(Debug, Clone)]
pub struct FieldSpec<V> {
    pub id: Uuid,
    pub name: String,
    pub offset: usize,
    pub field_type: FieldType,
    pub byte_order: ByteOrder,
    pub scale: V,
    pub bias: V,
    pub unit: String,
}

#[derive(Debug, Clone)]
pub enum DecoderSpec<V> {
    Text { id: Uuid },
    Csv { id: Uuid, delimiter: char },
    Json { id: Uuid },
    Binary { id: Uuid, fields: Vec<FieldSpec<V>> },
}

impl<V> DecoderSpec<V> {
    /// The identifier of the decoder.
    pub open spec fn id_spec(&self) -> Uuid {
        match self {
            DecoderSpec::Text { id } => *id,
            DecoderSpec::Csv { id, .. } => *id,
            DecoderSpec::Json { id } => *id,
            DecoderSpec::Binary { id, .. } => *id,
        }
    }

    /// The identifier of the decoder.
    pub fn id(&self) -> (id: Uuid)
        ensures
            id == self.id_spec(),
    {
        match self {
            DecoderSpec::Text { id } => *id,
            DecoderSpec::Csv { id, .. } => *id,
            DecoderSpec::Json { id } => *id,
            DecoderSpec::Binary { id, .. } => *id,
        }
    }
}

#[derive(Debug, Clone)]
pub enum ChannelSource {
    CsvIndex { index: usize },
    JsonPath { path: String },
    BinaryField { field_id: Uuid },
}

#[derive(Debug, Clone)]
pub struct ChannelSpec<V> {
    pub id: Uuid,
    pub name: String,
    pub unit: String,
    pub color: String,
    pub source: ChannelSource,
    pub transforms: Vec<TransformSpec<V>>,
}

#[derive(Debug, Clone)]
pub enum TransformSpec<V> {
    ScaleBias { id: Uuid, scale: V, bias: V },
    Ema { id: Uuid, alpha: V },
    MovingAverage { id: Uuid, window: usize },
    Derivative { id: Uuid },
}

impl<V> TransformSpec<V> {
    /// The identifier of the transform.
    pub open spec fn id_spec(&self) -> Uuid {
        match self {
            TransformSpec::ScaleBias { id, .. } => *id,
            TransformSpec::Ema { id, .. } => *id,
            TransformSpec::MovingAverage { id, .. } => *id,
            TransformSpec::Derivative { id } => *id,
        }
    }

    /// The identifier of the transform.
    pub fn id(&self) -> (id: Uuid)
        ensures
            id == self.id_spec(),
    {
        match self {
            TransformSpec::ScaleBias { id, .. } => *id,
            TransformSpec::Ema { id, .. } => *id,
            TransformSpec::MovingAverage { id, .. } => *id,
            TransformSpec::Derivative { id } => *id,
        }
    }
}

#[derive(Debug, Clone)]
pub struct CommandProfile {
    pub id: Uuid,
    pub name: String,
    pub text_template: String,
    pub min_gap_ms: u64,
}

#[derive(Debug, Clone)]
pub struct PidProfile<V> {
    pub id: Uuid,
    pub name: String,
    pub setpoint_channel_id: Uuid,
    pub measured_channel_id: Uuid,
    pub output_channel_id: Uuid,
    pub command_profile_id: Uuid,
    pub kp_min: V,
    pub kp_max: V,
    pub ki_min: V,
    pub ki_max: V,
    pub kd_min: V,
    pub kd_max: V,
}

#[derive(Debug)]
pub struct SourceProfile {
    pub id: Uuid,
    pub name: String,
    pub serial: SerialConfig,
}

impl Clone for SourceProfile {
    fn clone(&self) -> (profile: SourceProfile)
        ensures
            profile == *self,
    {
        SourceProfile { id: self.id, name: self.name.clone(), serial: self.serial.clone() }
    }
}

/// A workspace of the user interface; `settings` is a JSON object as text.
#[derive(Debug, Clone)]
pub struct ViewSpec {
    pub id: Uuid,
    pub name: String,
    pub kind: String,
    pub settings: String,
}

/// Everything that a user configures; `ui` is a JSON object as text. The larger
/// parts are shared between copies of a project.
#[derive(Debug)]
pub struct ToolboxProject<V> {
    pub id: Uuid,
    pub name: String,
    pub project_schema_version: String,
    pub pipeline_semantic_version: String,
    pub app_version: String,
    pub source: SourceProfile,
    pub framer: Arc<FramerSpec>,
    pub checksum: Option<ChecksumSpec>,
    pub decoder: Arc<DecoderSpec<V>>,
    pub channels: Arc<Vec<ChannelSpec<V>>>,
    pub commands: Arc<Vec<CommandProfile>>,
    pub pid_profiles: Arc<Vec<PidProfile<V>>>,
    pub views: Arc<Vec<ViewSpec>>,
    pub ui: String,
}

impl<V> Clone for ToolboxProject<V> {
    fn clone(&self) -> (project: ToolboxProject<V>)
        ensures
            project == *self,
    {
        ToolboxProject {
            id: self.id,
            name: self.name.clone(),
            project_schema_version: self.project_schema_version.clone(),
            pipeline_semantic_version: self.pipeline_semantic_version.clone(),
            app_version: self.app_version.clone(),
            source: self.source.clone(),
            framer: share(&self.framer),
            checksum: self.checksum,
            decoder: share(&self.decoder),
            channels: share(&self.channels),
            commands: share(&self.commands),
            pid_profiles: share(&self.pid_profiles),
            views: share(&self.views),
            ui: self.ui.clone(),
        }
    }
}

#[derive(Debug, Clone, Copy, PartialEq, Eq, Structural)]
pub enum SourceStatus {
    Disconnected,
    Connecting,
    Connected,
    Faulted,
}

/// How many bytes wait in each queue of a source.
#[derive(Debug, Clone, Copy, PartialEq, Eq, Structural)]
pub struct QueueDepths {
    pub recorder_bytes: usize,
    pub parser_bytes: usize,
    pub terminal_bytes: usize,
    pub ipc_bytes: usize,
    pub tx_bytes: usize,
}

impl QueueDepths {
    /// The depths of queues in which nothing waits.
    pub open spec fn none_spec() -> QueueDepths {
        QueueDepths {
            recorder_bytes: 0,
            parser_bytes: 0,
            terminal_bytes: 0,
            ipc_bytes: 0,
            tx_bytes: 0,
        }
    }

    /// The depths of queues in which nothing waits.
    pub fn none() -> (depths: QueueDepths)
        ensures
            depths == QueueDepths::none_spec(),
    {
        QueueDepths {
            recorder_bytes: 0,
            parser_bytes: 0,
            terminal_bytes: 0,
            ipc_bytes: 0,
            tx_bytes: 0,
        }
    }
}

/// Running totals of a source.
#[derive(Debug, Clone, Copy, PartialEq, Eq, Structural)]
pub struct SourceStats {
    pub rx_bytes: u64,
    pub tx_bytes: u64,
    pub parsed_frames: u64,
    pub checksum_failures: u64,
    pub parser_gaps: u64,
    pub ui_dropped_bytes: u64,
    pub ui_dropped_batches: u64,
}

impl SourceStats {
    /// Totals of a source that has carried nothing.
    pub open spec fn zero() -> SourceStats {
        SourceStats {
            rx_bytes: 0,
            tx_bytes: 0,
            parsed_frames: 0,
            checksum_failures: 0,
            parser_gaps: 0,
            ui_dropped_bytes: 0,
            ui_dropped_batches: 0,
        }
    }
}

impl Default for SourceStats {
    fn default() -> (stats: SourceStats)
        ensures
            stats == SourceStats::zero(),
    {
        SourceStats {
            rx_bytes: 0,
            tx_bytes: 0,
            parsed_frames: 0,
            checksum_failures: 0,
            parser_gaps: 0,
            ui_dropped_bytes: 0,
            ui_dropped_batches: 0,
        }
    }
}

#[derive(Debug)]
pub struct SourceSnapshot {
    pub source_id: Uuid,
    pub name: String,
    pub status: SourceStatus,
    pub transport: String,
    pub endpoint: String,
    pub source_epoch: u64,
    pub epoch_id: Option<Uuid>,
    pub clock_anchor: Option<ClockAnchor>,
    pub queue_depths: QueueDepths,
    pub stats: SourceStats,
}

impl Clone for SourceSnapshot {
    fn clone(&self) -> (snapshot: SourceSnapshot)
        ensures
            snapshot == *self,
    {
        SourceSnapshot {
            source_id: self.source_id,
            name: self.name.clone(),
            status: self.status,
            transport: self.transport.clone(),
            endpoint: self.endpoint.clone(),
            source_epoch: self.source_epoch,
            epoch_id: self.epoch_id,
            clock_anchor: self.clock_anchor,
            queue_depths: self.queue_depths,
            stats: self.stats,
        }
    }
}

#[derive(Debug, Clone, Copy, PartialEq, Eq, Structural)]
pub enum SessionStatus {
    Idle,
    Recording,
    Suspended,
    Finalizing,
    Closed,
    Interrupted,
    Failed,
}

#[derive(Debug)]
pub struct SessionSnapshot {
    pub status: SessionStatus,
    pub session_id: Option<Uuid>,
    pub path: Option<String>,
    pub epoch_ordinal: Option<u32>,
    pub bytes_written: u64,
    pub checkpoint_pending: bool,
    pub message: Option<String>,
}

impl SessionSnapshot {
    /// The snapshot of a manager that has recorded nothing.
    pub open spec fn is_initial(&self) -> bool {
        &&& self.status == SessionStatus::Idle
        &&& self.session_id is None
        &&& self.path is None
        &&& self.epoch_ordinal is None
        &&& self.bytes_written == 0
        &&& !self.checkpoint_pending
        &&& self.message is None
    }
}

impl Default for SessionSnapshot {
    fn default() -> (snapshot: SessionSnapshot)
        ensures
            snapshot.is_initial(),
    {
        SessionSnapshot {
            status: SessionStatus::Idle,
            session_id: None,
            path: None,
            epoch_ordinal: None,
            bytes_written: 0,
            checkpoint_pending: false,
            message: None,
        }
    }
}

impl Clone for SessionSnapshot {
    fn clone(&self) -> (snapshot: SessionSnapshot)
        ensures
            snapshot == *self,
    {
        SessionSnapshot {
            status: self.status,
            session_id: self.session_id,
            path: self.path.clone(),
            epoch_ordinal: self.epoch_ordinal,
            bytes_written: self.bytes_written,
            checkpoint_pending: self.checkpoint_pending,
            message: self.message.clone(),
        }
    }
}

/// The state of the application at one event cursor.
#[derive(Debug)]
pub struct AppSnapshot<V> {
    pub runtime_instance_id: Uuid,
    pub app_version: String,
    pub event_cursor: u64,
    pub project: Arc<ToolboxProject<V>>,
    pub sources: Vec<Arc<SourceSnapshot>>,
    pub session: Arc<SessionSnapshot>,
    pub latest_channel_values: IdMap<V>,
    pub recent_errors: Vec<Arc<ToolboxError>>,
}

/// Where a subscriber left off.
#[derive(Debug, Clone, Copy, PartialEq, Eq, Structural)]
pub struct EventResume {
    pub runtime_instance_id: Uuid,
    pub last_cursor: u64,
}

#[derive(Debug, Clone, Copy, PartialEq, Eq, Structural)]
pub struct EventSubscription {
    pub runtime_instance_id: Uuid,
    pub current_cursor: u64,
    pub resync_required: bool,
}

#[derive(Debug, Clone)]
pub struct TxRequest {
    pub source_id: Uuid,
    pub payload: Vec<u8>,
    pub origin: String,
    pub not_before_unix_ms: Option<i64>,
    pub deadline_unix_ms: Option<i64>,
    pub min_gap_ms: Option<u64>,
}

#[derive(Debug, Clone, Copy, PartialEq, Eq, Structural)]
pub struct TxAccepted {
    pub job_id: Uuid,
}

/// A frame as it is shown to the user.
#[derive(Debug)]
pub struct FrameView<V> {
    pub sequence: u64,
    pub monotonic_offset_ns: i64,
    pub direction: Direction,
    pub bytes: Vec<u8>,
    pub valid: bool,
    pub error_code: Option<String>,
    pub fields: IdMap<V>,
}

/// One value of one channel.
#[derive(Debug, Clone, Copy)]
pub struct SampleView<V> {
    pub channel_id: Uuid,
    pub value: V,
    pub monotonic_offset_ns: i64,
    pub frame_sequence: u64,
}

/// Why stateful processing starts over.
#[derive(Debug, Clone, Copy, PartialEq, Eq, Structural)]
pub enum ResetReason {
    Connect,
    Disconnect,
    ConfigChanged,
    StreamGap,
    ReplayStart,
    ReplaySeek,
    EpochChanged,
    ManualReset,
}

/// A line that nobody has set up has 115200 baud, eight data bits, one stop bit, no parity and
/// no flow control. A generated source that nobody has set up gives fifty frames a second, and
/// nothing goes wrong with them.
pub proof fn law_settings_begin_with_the_usual(
    line: SerialConfig,
    plan: FaultPlan,
    source: SyntheticConfig,
    stats: SourceStats,
)
    requires
        call_ensures(<SerialConfig as Default>::default, (), line),
        call_ensures(<FaultPlan as Default>::default, (), plan),
        call_ensures(<SyntheticConfig as Default>::default, (), source),
        call_ensures(<SourceStats as Default>::default, (), stats),
    ensures
        line.port_name@.len() == 0,
        line.baud_rate == 115_200,
        line.data_bits == 8,
        line.stop_bits == 1,
        line.parity == Parity::Off,
        line.flow_control == FlowControl::Off,
        line.timeout_ms == 20,
        plan.disconnect_after_frames is None,
        plan.corrupt_every_frames is None,
        plan.drop_every_frames is None,
        plan.duplicate_every_frames is None,
        plan.stall_every_frames is None,
        plan.burst_every_frames is None,
        plan.fragment_max_bytes is None,
        plan.fail_write_every_jobs is None,
        plan.partial_write_every_jobs is None,
        source.rate_hz == 50,
        source.seed == 0x5eed,
        source.faults == plan,
        stats.rx_bytes == 0 && stats.tx_bytes == 0,
        stats.parsed_frames == 0 && stats.checksum_failures == 0,
        stats.parser_gaps == 0 && stats.ui_dropped_bytes == 0 && stats.ui_dropped_batches == 0,
{
}

/// A part of a project has the identifier that it was set up with, and a framing rule the bound
/// that it was set up with.
pub proof fn law_parts_have_their_own_identifiers<V>(
    framer: &FramerSpec,
    framer_id: Uuid,
    bound: usize,
    decoder: &DecoderSpec<V>,
    decoder_id: Uuid,
    transform: &TransformSpec<V>,
    transform_id: Uuid,
)
    requires
        call_ensures(FramerSpec::id, (framer,), framer_id),
        call_ensures(FramerSpec::max_frame_bytes, (framer,), bound),
        call_ensures(DecoderSpec::<V>::id, (decoder,), decoder_id),
        call_ensures(TransformSpec::<V>::id, (transform,), transform_id),
    ensures
        framer is EndDelimiter ==> framer_id == framer->EndDelimiter_id && bound
            == framer->EndDelimiter_max_frame_bytes,
        framer is StartEnd ==> framer_id == framer->StartEnd_id && bound
            == framer->StartEnd_max_frame_bytes,
        framer is FixedLength ==> framer_id == framer->FixedLength_id && bound
            == framer->FixedLength_max_frame_bytes,
        framer is LengthField ==> framer_id == framer->LengthField_id && bound
            == framer->LengthField_max_frame_bytes,
        decoder is Text ==> decoder_id == decoder->Text_id,
        decoder is Csv ==> decoder_id == decoder->Csv_id,
        decoder is Json ==> decoder_id == decoder->Json_id,
        decoder is Binary ==> decoder_id == decoder->Binary_id,
        transform is ScaleBias ==> transform_id == transform->ScaleBias_id,
        transform is Ema ==> transform_id == transform->Ema_id,
        transform is MovingAverage ==> transform_id == transform->MovingAverage_id,
        transform is Derivative ==> transform_id == transform->Derivative_id,
{
}

} // verus!
