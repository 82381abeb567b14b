//! Structured errors with stable wire codes.

use crate::ident::Uuid;
use vstd::prelude::*;

verus! {

/// What went wrong, as a closed set of stable codes.
#[derive(Debug, Clone, Copy, PartialEq, Eq, Structural)]
pub enum ErrorCode {
    DeviceNotFound,
    DeviceBusy,
    DeviceOpen,
    DeviceRead,
    DeviceWrite,
    DeviceDisconnected,
    ProductSourceLimit,
    TxQueueFull,
    TxTimeout,
    TxCancelled,
    TxPartialWrite,
    FrameOversize,
    FrameResync,
    ChecksumMismatch,
    ParseFailed,
    ParserBackpressure,
    RecordingBackpressure,
    ProjectSchemaInvalid,
    PipelineVersionUnsupported,
    IpcEnvelopeVersion,
    IpcPayloadVersion,
    EventCursorExpired,
    SessionState,
    SessionOpen,
    SessionWrite,
    SessionCheckpointBusy,
    SessionCheckpointFailed,
    SessionCorrupt,
    EpochIdentity,
    ReplayActiveSession,
    ReplayFailed,
    Internal,
}

/// The wire text of a code.
pub open spec fn code_text(code: ErrorCode) -> Seq<char> {
    match code {
        ErrorCode::DeviceNotFound => "E_DEVICE_NOT_FOUND"@,
        ErrorCode::DeviceBusy => "E_DEVICE_BUSY"@,
        ErrorCode::DeviceOpen => "E_DEVICE_OPEN"@,
        ErrorCode::DeviceRead => "E_DEVICE_READ"@,
        ErrorCode::DeviceWrite => "E_DEVICE_WRITE"@,
        ErrorCode::DeviceDisconnected => "E_DEVICE_DISCONNECTED"@,
        ErrorCode::ProductSourceLimit => "E_PRODUCT_SOURCE_LIMIT"@,
        ErrorCode::TxQueueFull => "E_TX_QUEUE_FULL"@,
        ErrorCode::TxTimeout => "E_TX_TIMEOUT"@,
        ErrorCode::TxCancelled => "E_TX_CANCELLED"@,
        ErrorCode::TxPartialWrite => "E_TX_PARTIAL_WRITE"@,
        ErrorCode::FrameOversize => "E_FRAME_OVERSIZE"@,
        ErrorCode::FrameResync => "E_FRAME_RESYNC"@,
        ErrorCode::ChecksumMismatch => "E_CHECKSUM_MISMATCH"@,
        ErrorCode::ParseFailed => "E_PARSE_FAILED"@,
        ErrorCode::ParserBackpressure => "E_PARSER_BACKPRESSURE"@,
        ErrorCode::RecordingBackpressure => "E_RECORDING_BACKPRESSURE"@,
        ErrorCode::ProjectSchemaInvalid => "E_PROJECT_SCHEMA_INVALID"@,
        ErrorCode::PipelineVersionUnsupported => "E_PIPELINE_VERSION_UNSUPPORTED"@,
        ErrorCode::IpcEnvelopeVersion => "E_IPC_ENVELOPE_VERSION"@,
        ErrorCode::IpcPayloadVersion => "E_IPC_PAYLOAD_VERSION"@,
        ErrorCode::EventCursorExpired => "E_EVENT_CURSOR_EXPIRED"@,
        ErrorCode::SessionState => "E_SESSION_STATE"@,
        ErrorCode::SessionOpen => "E_SESSION_OPEN"@,
        ErrorCode::SessionWrite => "E_SESSION_WRITE"@,
        ErrorCode::SessionCheckpointBusy => "E_SESSION_CHECKPOINT_BUSY"@,
        ErrorCode::SessionCheckpointFailed => "E_SESSION_CHECKPOINT_FAILED"@,
        ErrorCode::SessionCorrupt => "E_SESSION_CORRUPT"@,
        ErrorCode::EpochIdentity => "E_EPOCH_IDENTITY"@,
        ErrorCode::ReplayActiveSession => "E_REPLAY_ACTIVE_SESSION"@,
        ErrorCode::ReplayFailed => "E_REPLAY_FAILED"@,
        ErrorCode::Internal => "E_INTERNAL"@,
    }
}

impl ErrorCode {
    /// The wire text of the code.
    pub fn as_str(self) -> (text: &'static str)
        ensures
            text@ == code_text(self),
    {
        match self {
            ErrorCode::DeviceNotFound => "E_DEVICE_NOT_FOUND",
            ErrorCode::DeviceBusy => "E_DEVICE_BUSY",
            ErrorCode::DeviceOpen => "E_DEVICE_OPEN",
            ErrorCode::DeviceRead => "E_DEVICE_READ",
            ErrorCode::DeviceWrite => "E_DEVICE_WRITE",
            ErrorCode::DeviceDisconnected => "E_DEVICE_DISCONNECTED",
            ErrorCode::ProductSourceLimit => "E_PRODUCT_SOURCE_LIMIT",
            ErrorCode::TxQueueFull => "E_TX_QUEUE_FULL",
            ErrorCode::TxTimeout => "E_TX_TIMEOUT",
            ErrorCode::TxCancelled => "E_TX_CANCELLED",
            ErrorCode::TxPartialWrite => "E_TX_PARTIAL_WRITE",
            ErrorCode::FrameOversize => "E_FRAME_OVERSIZE",
            ErrorCode::FrameResync => "E_FRAME_RESYNC",
            ErrorCode::ChecksumMismatch => "E_CHECKSUM_MISMATCH",
            ErrorCode::ParseFailed => "E_PARSE_FAILED",
            ErrorCode::ParserBackpressure => "E_PARSER_BACKPRESSURE",
            ErrorCode::RecordingBackpressure => "E_RECORDING_BACKPRESSURE",
            ErrorCode::ProjectSchemaInvalid => "E_PROJECT_SCHEMA_INVALID",
            ErrorCode::PipelineVersionUnsupported => "E_PIPELINE_VERSION_UNSUPPORTED",
            ErrorCode::IpcEnvelopeVersion => "E_IPC_ENVELOPE_VERSION",
            ErrorCode::IpcPayloadVersion => "E_IPC_PAYLOAD_VERSION",
            ErrorCode::EventCursorExpired => "E_EVENT_CURSOR_EXPIRED",
            ErrorCode::SessionState => "E_SESSION_STATE",
            ErrorCode::SessionOpen => "E_SESSION_OPEN",
            ErrorCode::SessionWrite => "E_SESSION_WRITE",
            ErrorCode::SessionCheckpointBusy => "E_SESSION_CHECKPOINT_BUSY",
            ErrorCode::SessionCheckpointFailed => "E_SESSION_CHECKPOINT_FAILED",
            ErrorCode::SessionCorrupt => "E_SESSION_CORRUPT",
            ErrorCode::EpochIdentity => "E_EPOCH_IDENTITY",
            ErrorCode::ReplayActiveSession => "E_REPLAY_ACTIVE_SESSION",
            ErrorCode::ReplayFailed => "E_REPLAY_FAILED",
            ErrorCode::Internal => "E_INTERNAL",
        }
    }
}

/// How grave an error is.
#[derive(Debug, Clone, Copy, PartialEq, Eq, Structural)]
pub enum ErrorSeverity {
    Info,
    Warning,
    Error,
    Fatal,
}

/// A value attached to an error under a name.
#[derive(Debug)]
pub enum ContextValue {
    Unsigned(u64),
    Signed(i64),
    Text(String),
    Id(Uuid),
}

/// What a `ContextValue` says.
#[verifier::ext_equal]
pub enum ContextData {
    Unsigned(u64),
    Signed(i64),
    Text(Seq<char>),
    Id(Uuid),
}

impl Clone for ContextValue {
    fn clone(&self) -> (value: ContextValue)
        ensures
            value == *self,
    {
        match self {
            ContextValue::Unsigned(value) => ContextValue::Unsigned(*value),
            ContextValue::Signed(value) => ContextValue::Signed(*value),
            ContextValue::Text(value) => ContextValue::Text(value.clone()),
            ContextValue::Id(value) => ContextValue::Id(*value),
        }
    }
}

impl View for ContextValue {
    type V = ContextData;

    open spec fn view(&self) -> ContextData {
        match self {
            ContextValue::Unsigned(value) => ContextData::Unsigned(*value),
            ContextValue::Signed(value) => ContextData::Signed(*value),
            ContextValue::Text(value) => ContextData::Text(value@),
            ContextValue::Id(value) => ContextData::Id(*value),
        }
    }
}

/// An error with everything that a user interface needs to present it.
///
/// `context` lists named values; where a name occurs twice, the later one counts.
#[derive(Debug)]
pub struct ToolboxError {
    pub code: String,
    pub severity: ErrorSeverity,
    pub recoverable: bool,
    pub source_id: Option<Uuid>,
    pub operation: String,
    pub message_key: String,
    pub context: Vec<(String, ContextValue)>,
    pub cause: Option<String>,
}

/// What a `ToolboxError` says.
#[verifier::ext_equal]
pub struct ErrorData {
    pub code: Seq<char>,
    pub severity: ErrorSeverity,
    pub recoverable: bool,
    pub source_id: Option<Uuid>,
    pub operation: Seq<char>,
    pub message_key: Seq<char>,
    pub context: Map<Seq<char>, ContextData>,
    pub cause: Option<Seq<char>>,
}

/// The map that a list of named values stands for.
pub open spec fn context_map(entries: Seq<(String, ContextValue)>) -> Map<Seq<char>, ContextData>
    decreases entries.len(),
{
    if entries.len() == 0 {
        Map::empty()
    } else {
        context_map(entries.drop_last()).insert(entries.last().0@, entries.last().1@)
    }
}

/// The text of an optional string.
pub open spec fn optional_text(text: Option<String>) -> Option<Seq<char>> {
    match text {
        Some(text) => Some(text@),
        None => None,
    }
}

impl View for ToolboxError {
    type V = ErrorData;

    open spec fn view(&self) -> ErrorData {
        ErrorData {
            code: self.code@,
            severity: self.severity,
            recoverable: self.recoverable,
            source_id: self.source_id,
            operation: self.operation@,
            message_key: self.message_key@,
            context: context_map(self.context@),
            cause: optional_text(self.cause),
        }
    }
}

impl Clone for ToolboxError {
    fn clone(&self) -> (error: ToolboxError)
        ensures
            error@ == self@,
    {
        let mut context: Vec<(String, ContextValue)> = Vec::new();
        let mut i: usize = 0;
        while i < self.context.len()
            invariant
                i <= self.context@.len(),
                context@ == self.context@.take(i as int),
            decreases self.context@.len() - i,
        {
            let entry = &self.context[i];
            context.push((entry.0.clone(), entry.1.clone()));
            assert(context@ =~= self.context@.take(i + 1));
            i += 1;
        }
        assert(context@ =~= self.context@);
        ToolboxError {
            code: self.code.clone(),
            severity: self.severity,
            recoverable: self.recoverable,
            source_id: self.source_id,
            operation: self.operation.clone(),
            message_key: self.message_key.clone(),
            context,
            cause: self.cause.clone(),
        }
    }
}

/// A recoverable error of a code, raised by an operation under a message key.
pub open spec fn failure(code: ErrorCode, operation: Seq<char>, message_key: Seq<char>) -> ErrorData {
    ErrorData {
        code: code_text(code),
        severity: ErrorSeverity::Error,
        recoverable: true,
        source_id: None,
        operation,
        message_key,
        context: Map::empty(),
        cause: None,
    }
}

impl ErrorData {
    /// The same error, attributed to a source.
    pub open spec fn at(self, source_id: Uuid) -> ErrorData {
        ErrorData { source_id: Some(source_id), ..self }
    }

    /// The same error with its underlying cause.
    pub open spec fn because(self, cause: Seq<char>) -> ErrorData {
        ErrorData { cause: Some(cause), ..self }
    }

    /// The same error with one more named value.
    pub open spec fn noting(self, key: Seq<char>, value: ContextData) -> ErrorData {
        ErrorData { context: self.context.insert(key, value), ..self }
    }
}

impl ToolboxError {
    /// A recoverable error without source, cause or context.
    pub fn new(code: ErrorCode, operation: &str, message_key: &str) -> (error: ToolboxError)
        ensures
            error@ == failure(code, operation@, message_key@),
    {
        ToolboxError {
            code: code.as_str().to_owned(),
            severity: ErrorSeverity::Error,
            recoverable: true,
            source_id: None,
            operation: operation.to_owned(),
            message_key: message_key.to_owned(),
            context: Vec::new(),
            cause: None,
        }
    }

    /// Attributes the error to a source.
    pub fn source(self, source_id: Uuid) -> (error: ToolboxError)
        ensures
            error@ == self@.at(source_id),
    {
        ToolboxError { source_id: Some(source_id), ..self }
    }

    /// Records the underlying cause.
    pub fn cause(self, cause: String) -> (error: ToolboxError)
        ensures
            error@ == self@.because(cause@),
    {
        ToolboxError { cause: Some(cause), ..self }
    }

    /// Attaches a named value, in place of an earlier one of that name.
    pub fn context(self, key: &str, value: ContextValue) -> (error: ToolboxError)
        ensures
            error@ == self@.noting(key@, value@),
    {
        let mut context = self.context;
        let name = key.to_owned();
        let ghost before = context@;
        context.push((name, value));
        assert(context@.drop_last() =~= before);
        ToolboxError {
            code: self.code,
            severity: self.severity,
            recoverable: self.recoverable,
            source_id: self.source_id,
            operation: self.operation,
            message_key: self.message_key,
            context,
            cause: self.cause,
        }
    }
}

pub type ToolboxResult<T> = Result<T, ToolboxError>;

/// An error says what it was made with, and what was added to it, and nothing that was not;
/// of two values under one name the later one counts.
pub proof fn law_an_error_says_what_it_was_given(
    code: ErrorCode,
    text: &'static str,
    operation: &str,
    message_key: &str,
    plain: ToolboxError,
    source_id: Uuid,
    attributed: ToolboxError,
    cause: String,
    explained: ToolboxError,
    key: &str,
    value: ContextValue,
    noted: ToolboxError,
    other_key: &str,
    other_value: ContextValue,
    twice: ToolboxError,
)
    requires
        call_ensures(ErrorCode::as_str, (code,), text),
        call_ensures(ToolboxError::new, (code, operation, message_key), plain),
        call_ensures(ToolboxError::source, (plain, source_id), attributed),
        call_ensures(ToolboxError::cause, (attributed, cause), explained),
        call_ensures(ToolboxError::context, (explained, key, value), noted),
        call_ensures(ToolboxError::context, (noted, other_key, other_value), twice),
    ensures
        plain.code@ == text@,
        plain.operation@ == operation@,
        plain.message_key@ == message_key@,
        plain.recoverable,
        plain.severity == ErrorSeverity::Error,
        plain.source_id is None,
        plain.cause is None,
        plain@.context == Map::<Seq<char>, ContextData>::empty(),
        twice.code@ == text@,
        twice.operation@ == operation@,
        twice.message_key@ == message_key@,
        twice.recoverable,
        twice.severity == ErrorSeverity::Error,
        twice.source_id == Some(source_id),
        optional_text(twice.cause) == Some(cause@),
        twice@.context.dom().contains(other_key@) && twice@.context[other_key@] == other_value@,
        key@ != other_key@ ==> twice@.context.dom().contains(key@) && twice@.context[key@]
            == value@,
        forall|name: Seq<char>| #[trigger]
            twice@.context.dom().contains(name) ==> name == key@ || name == other_key@,
{
}

/// Every code has a text of its own, under which it is shown and stored.
pub proof fn law_codes_have_their_texts(code: ErrorCode, text: &'static str)
    requires
        call_ensures(ErrorCode::as_str, (code,), text),
    ensures
        code == ErrorCode::DeviceNotFound ==> text@ == "E_DEVICE_NOT_FOUND"@,
        code == ErrorCode::DeviceBusy ==> text@ == "E_DEVICE_BUSY"@,
        code == ErrorCode::DeviceOpen ==> text@ == "E_DEVICE_OPEN"@,
        code == ErrorCode::DeviceRead ==> text@ == "E_DEVICE_READ"@,
        code == ErrorCode::DeviceWrite ==> text@ == "E_DEVICE_WRITE"@,
        code == ErrorCode::DeviceDisconnected ==> text@ == "E_DEVICE_DISCONNECTED"@,
        code == ErrorCode::ProductSourceLimit ==> text@ == "E_PRODUCT_SOURCE_LIMIT"@,
        code == ErrorCode::TxQueueFull ==> text@ == "E_TX_QUEUE_FULL"@,
        code == ErrorCode::TxTimeout ==> text@ == "E_TX_TIMEOUT"@,
        code == ErrorCode::TxCancelled ==> text@ == "E_TX_CANCELLED"@,
        code == ErrorCode::TxPartialWrite ==> text@ == "E_TX_PARTIAL_WRITE"@,
        code == ErrorCode::FrameOversize ==> text@ == "E_FRAME_OVERSIZE"@,
        code == ErrorCode::FrameResync ==> text@ == "E_FRAME_RESYNC"@,
        code == ErrorCode::ChecksumMismatch ==> text@ == "E_CHECKSUM_MISMATCH"@,
        code == ErrorCode::ParseFailed ==> text@ == "E_PARSE_FAILED"@,
        code == ErrorCode::ParserBackpressure ==> text@ == "E_PARSER_BACKPRESSURE"@,
        code == ErrorCode::RecordingBackpressure ==> text@ == "E_RECORDING_BACKPRESSURE"@,
        code == ErrorCode::ProjectSchemaInvalid ==> text@ == "E_PROJECT_SCHEMA_INVALID"@,
        code == ErrorCode::PipelineVersionUnsupported ==> text@ == "E_PIPELINE_VERSION_UNSUPPORTED"@,
        code == ErrorCode::IpcEnvelopeVersion ==> text@ == "E_IPC_ENVELOPE_VERSION"@,
        code == ErrorCode::IpcPayloadVersion ==> text@ == "E_IPC_PAYLOAD_VERSION"@,
        code == ErrorCode::EventCursorExpired ==> text@ == "E_EVENT_CURSOR_EXPIRED"@,
        code == ErrorCode::SessionState ==> text@ == "E_SESSION_STATE"@,
        code == ErrorCode::SessionOpen ==> text@ == "E_SESSION_OPEN"@,
        code == ErrorCode::SessionWrite ==> text@ == "E_SESSION_WRITE"@,
        code == ErrorCode::SessionCheckpointBusy ==> text@ == "E_SESSION_CHECKPOINT_BUSY"@,
        code == ErrorCode::SessionCheckpointFailed ==> text@ == "E_SESSION_CHECKPOINT_FAILED"@,
        code == ErrorCode::SessionCorrupt ==> text@ == "E_SESSION_CORRUPT"@,
        code == ErrorCode::EpochIdentity ==> text@ == "E_EPOCH_IDENTITY"@,
        code == ErrorCode::ReplayActiveSession ==> text@ == "E_REPLAY_ACTIVE_SESSION"@,
        code == ErrorCode::ReplayFailed ==> text@ == "E_REPLAY_FAILED"@,
        code == ErrorCode::Internal ==> text@ == "E_INTERNAL"@,
{
}

} // verus!
