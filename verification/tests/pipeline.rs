use embedded_toolbox::error::ErrorCode;
use embedded_toolbox::ident::Uuid;
use embedded_toolbox::json::{json_path, number_at};
use embedded_toolbox::math::{Operation, RawNumber, SampleMath};
use embedded_toolbox::model::{
    ByteOrder, ChannelSource, ChannelSpec, ChecksumAlgorithm, ChecksumSpec, DecoderSpec, Direction,
    FieldSpec, FieldType, FramerSpec, RawChunk, ResetReason, ToolboxProject, TransformSpec,
};
use embedded_toolbox::pipeline::{decode_field, read_csv_channels, Pipeline};
use std::sync::Arc;

struct Doubles;

impl SampleMath<f64> for Doubles {
    fn parse(&self, text: String) -> Result<f64, String> {
        text.parse::<f64>().map_err(|error| error.to_string())
    }

    fn number(&self, raw: RawNumber) -> f64 {
        match raw {
            RawNumber::Unsigned(value) => value as f64,
            RawNumber::Signed(value) => value as f64,
            RawNumber::Float32(bits) => f32::from_bits(bits) as f64,
            RawNumber::Float64(bits) => f64::from_bits(bits),
        }
    }

    fn evaluate(&self, operation: Operation<f64>) -> f64 {
        match operation {
            Operation::Zero => 0.0,
            Operation::ScaleBias { value, scale, bias } => value * scale + bias,
            Operation::Blend { value, old, alpha } => {
                alpha.clamp(0.0, 1.0) * value + (1.0 - alpha.clamp(0.0, 1.0)) * old
            }
            Operation::Sum { left, right } => left + right,
            Operation::Difference { left, right } => left - right,
            Operation::Mean { sum, count } => sum / count as f64,
            Operation::Slope { value, old, elapsed_ns } => {
                (value - old) / (elapsed_ns as f64 / 1_000_000_000.0)
            }
        }
    }

    fn is_finite(&self, value: f64) -> bool {
        value.is_finite()
    }
}

fn chunk(sequence: u64, bytes: &[u8]) -> RawChunk {
    RawChunk {
        source_id: Uuid::nil(),
        source_epoch: 1,
        sequence,
        monotonic_offset_ns: 100,
        direction: Direction::Rx,
        bytes: Arc::new(bytes.to_vec()),
        gap_before: false,
        tx_job_id: None,
    }
}

fn demo() -> ToolboxProject<f64> {
    ToolboxProject::demo(0.18, 0.0, 100.0)
}

fn channel(source: ChannelSource) -> ChannelSpec<f64> {
    ChannelSpec {
        id: Uuid::now_v7(),
        name: "channel".to_string(),
        unit: String::new(),
        color: String::new(),
        source,
        transforms: vec![],
    }
}

fn field(offset: usize, field_type: FieldType, byte_order: ByteOrder) -> FieldSpec<f64> {
    FieldSpec {
        id: Uuid::now_v7(),
        name: "field".to_string(),
        offset,
        field_type,
        byte_order,
        scale: 1.0,
        bias: 0.0,
        unit: String::new(),
    }
}

#[test]
fn demo_csv_reaches_all_channels() {
    let project = demo();
    let mut pipeline = Pipeline::new(Arc::new(project)).unwrap();
    let chunk = RawChunk {
        source_id: Uuid::nil(),
        source_epoch: 1,
        sequence: 1,
        monotonic_offset_ns: 100,
        direction: Direction::Rx,
        bytes: Arc::new(b"50,48,20\n".to_vec()),
        gap_before: false,
        tx_job_id: None,
    };
    let output = pipeline.process(&chunk, &Doubles);
    assert_eq!(output.frames.len(), 1);
    assert_eq!(output.samples.len(), 3);
}

#[test]
fn samples_carry_value_time_and_frame() {
    let project = demo();
    let channels: Vec<Uuid> = project.channels.iter().map(|channel| channel.id).collect();
    let mut pipeline = Pipeline::new(Arc::new(project)).unwrap();
    pipeline.process(&chunk(1, b"1,100,3\n"), &Doubles);
    let output = pipeline.process(&chunk(2, b" 4 , 0 ,6\n"), &Doubles);
    let ids: Vec<Uuid> = output.samples.iter().map(|sample| sample.channel_id).collect();
    assert_eq!(ids, channels);
    let values: Vec<f64> = output.samples.iter().map(|sample| sample.value).collect();
    assert_eq!(values, [4.0, 82.0, 6.0]);
    assert_eq!(output.samples[0].frame_sequence, 2);
    assert_eq!(output.samples[0].monotonic_offset_ns, 100);
}

#[test]
fn frames_that_cannot_be_read_are_kept_and_counted() {
    let mut pipeline = Pipeline::new(Arc::new(demo())).unwrap();
    let output = pipeline.process(&chunk(1, b"1,2\n1,x,3\n\xff,1,1\n1,2,3\n"), &Doubles);
    assert_eq!(output.parse_failures, 3);
    assert_eq!(output.frames.len(), 4);
    let valid: Vec<bool> = output.frames.iter().map(|frame| frame.valid).collect();
    assert_eq!(valid, [false, false, false, true]);
    let code = ErrorCode::ParseFailed.as_str();
    assert_eq!(output.frames[0].error_code.as_deref(), Some(code));
    assert_eq!(output.frames[3].error_code, None);
    let sequences: Vec<u64> = output.frames.iter().map(|frame| frame.sequence).collect();
    assert_eq!(sequences, [1, 2, 3, 4]);
    assert_eq!(output.samples.len(), 3);
}

#[test]
fn csv_errors_say_what_is_missing() {
    let channels = vec![channel(ChannelSource::CsvIndex { index: 2 })];
    let missing = read_csv_channels("1,2", ',', &channels, &Doubles).unwrap_err();
    assert_eq!(missing.message_key, "csv_index_missing");
    assert_eq!(missing.operation, "pipeline.csv");
    let invalid = read_csv_channels("1,2,three", ',', &channels, &Doubles).unwrap_err();
    assert_eq!(invalid.message_key, "csv_number_invalid");
    assert_eq!(invalid.cause.as_deref(), Some("invalid float literal"));
    let read = read_csv_channels("1;2;\u{2003}3.5\t", ';', &channels, &Doubles).unwrap();
    assert_eq!(read.get(channels[0].id), Some(&3.5));
}

#[test]
fn json_documents_are_read_by_path() {
    let mut project = demo();
    let channels = vec![
        channel(ChannelSource::JsonPath { path: ".a.b.".to_string() }),
        channel(ChannelSource::JsonPath { path: "c".to_string() }),
    ];
    project.decoder = Arc::new(DecoderSpec::Json { id: Uuid::now_v7() });
    project.channels = Arc::new(channels);
    let mut pipeline = Pipeline::new(Arc::new(project)).unwrap();
    let good = pipeline.process(&chunk(1, b"{\"a\":{\"b\":1.5},\"c\":-7}\n"), &Doubles);
    let values: Vec<f64> = good.samples.iter().map(|sample| sample.value).collect();
    assert_eq!(values, [1.5, -7.0]);
    let bad = pipeline.process(&chunk(2, b"{\"a\":{\"b\":\"x\"},\"c\":1}\n{\n"), &Doubles);
    assert_eq!(bad.parse_failures, 2);
    assert!(bad.samples.is_empty());
}

#[test]
fn json_values_are_found_under_keys() {
    let document: serde_json::Value =
        serde_json::from_str("{\"a\":{\"b\":[1,2],\"n\":3}}").unwrap();
    assert!(json_path(&document, "a.b").is_some());
    assert!(json_path(&document, "a..n").is_some());
    assert!(json_path(&document, "a.x").is_none());
    assert!(json_path(&document, "").is_some());
    assert_eq!(number_at(&document, "a.n").map(f64::from_bits), Some(3.0));
    assert_eq!(number_at(&document, "a.b"), None);
}

#[test]
fn binary_fields_are_read_scaled_and_sampled() {
    let mut project = demo();
    let mut wide = field(1, FieldType::I16, ByteOrder::Big);
    wide.scale = 0.5;
    wide.bias = 1.0;
    let fields = vec![field(0, FieldType::U8, ByteOrder::Little), wide];
    let source = ChannelSource::BinaryField { field_id: fields[1].id };
    let second = fields[1].id;
    project.framer = Arc::new(FramerSpec::FixedLength {
        id: Uuid::now_v7(),
        length: 3,
        max_frame_bytes: 8,
    });
    project.decoder = Arc::new(DecoderSpec::Binary { id: Uuid::now_v7(), fields });
    project.channels = Arc::new(vec![channel(source)]);
    let mut pipeline = Pipeline::new(Arc::new(project)).unwrap();
    let output = pipeline.process(&chunk(1, &[7, 0xff, 0xfe]), &Doubles);
    assert_eq!(output.frames[0].fields.get(second), Some(&0.0));
    assert_eq!(output.samples[0].value, 0.0);
}

#[test]
fn every_field_type_is_read() {
    let bytes = 1.5f64.to_le_bytes();
    let f64_field = field(0, FieldType::F64, ByteOrder::Little);
    assert_eq!(decode_field(&bytes, &f64_field, &Doubles).unwrap(), 1.5);
    let f32_bytes = (-2.25f32).to_be_bytes();
    let f32_field = field(0, FieldType::F32, ByteOrder::Big);
    assert_eq!(decode_field(&f32_bytes, &f32_field, &Doubles).unwrap(), -2.25);
    let all = [0xff, 0xfe, 0xfd, 0xfc];
    let read = |field_type, order| decode_field(&all, &field(0, field_type, order), &Doubles);
    assert_eq!(read(FieldType::U8, ByteOrder::Big).unwrap(), 255.0);
    assert_eq!(read(FieldType::I8, ByteOrder::Big).unwrap(), -1.0);
    assert_eq!(read(FieldType::U16, ByteOrder::Big).unwrap(), 65534.0);
    assert_eq!(read(FieldType::I16, ByteOrder::Little).unwrap(), -257.0);
    assert_eq!(read(FieldType::U32, ByteOrder::Little).unwrap(), 4_244_504_319.0);
    assert_eq!(read(FieldType::I32, ByteOrder::Big).unwrap(), -66052.0);
    let error = read(FieldType::F64, ByteOrder::Big).unwrap_err();
    assert_eq!(error.message_key, "field_out_of_range");
}

#[test]
fn wrong_checksums_are_counted_and_not_decoded() {
    let mut project = demo();
    project.decoder = Arc::new(DecoderSpec::Text { id: Uuid::now_v7() });
    project.checksum = Some(ChecksumSpec {
        id: Uuid::now_v7(),
        algorithm: ChecksumAlgorithm::Xor8,
        start_offset: 0,
        end_offset_exclusive: 2,
        stored_offset: 2,
        stored_width: 1,
        byte_order: ByteOrder::Little,
    });
    let mut pipeline = Pipeline::new(Arc::new(project)).unwrap();
    let output = pipeline.process(&chunk(1, &[1, 2, 3, b'\n', 1, 2, 4, b'\n']), &Doubles);
    assert_eq!(output.checksum_failures, 1);
    let code = ErrorCode::ChecksumMismatch.as_str();
    assert_eq!(output.frames[0].error_code, None);
    assert_eq!(output.frames[1].error_code.as_deref(), Some(code));
}

#[test]
fn a_gap_forgets_begun_frames_and_histories() {
    let mut pipeline = Pipeline::new(Arc::new(demo())).unwrap();
    pipeline.process(&chunk(1, b"1,10,1\n1,2"), &Doubles);
    let mut after = chunk(2, b"2,20,2\n");
    after.gap_before = true;
    let output = pipeline.process(&after, &Doubles);
    let values: Vec<f64> = output.samples.iter().map(|sample| sample.value).collect();
    assert_eq!(values, [2.0, 20.0, 2.0]);
}

#[test]
fn values_that_are_no_numbers_give_no_samples() {
    let mut project = demo();
    let mut scaled = channel(ChannelSource::CsvIndex { index: 0 });
    scaled.transforms = vec![TransformSpec::ScaleBias {
        id: Uuid::now_v7(),
        scale: 2.0,
        bias: 0.0,
    }];
    project.channels = Arc::new(vec![scaled]);
    let mut pipeline = Pipeline::new(Arc::new(project)).unwrap();
    let output = pipeline.process(&chunk(1, b"inf\n3\n"), &Doubles);
    assert_eq!(output.frames.len(), 2);
    assert_eq!(output.samples.len(), 1);
    assert_eq!(output.samples[0].value, 6.0);
}

#[test]
fn an_invalid_framing_rule_makes_no_pipeline() {
    let mut project = demo();
    project.framer = Arc::new(FramerSpec::FixedLength {
        id: Uuid::now_v7(),
        length: 9,
        max_frame_bytes: 8,
    });
    match Pipeline::new(Arc::new(project)) {
        Ok(_) => panic!("an error was expected"),
        Err(error) => {
            assert_eq!(error.message_key, "framer_invalid");
            assert_eq!(error.cause.as_deref(), Some("fixed length exceeds maxFrameBytes"));
        }
    }
}

#[test]
fn a_manual_reset_forgets_the_begun_frame() {
    let mut pipeline = Pipeline::new(Arc::new(demo())).unwrap();
    pipeline.process(&chunk(1, b"9,9"), &Doubles);
    pipeline.reset(ResetReason::ManualReset);
    let output = pipeline.process(&chunk(2, b"1,2,3\n"), &Doubles);
    assert_eq!(output.frames[0].bytes, b"1,2,3");
}

#[test]
fn frames_are_numbered_on_whatever_is_reset() {
    let mut pipeline = Pipeline::new(Arc::new(demo())).unwrap();
    let first = pipeline.process(&chunk(1, b"1,2,3\nx\n"), &Doubles);
    pipeline.reset(ResetReason::ManualReset);
    let second = pipeline.process(&chunk(2, b"4,5,6\n"), &Doubles);
    let numbers: Vec<u64> =
        first.frames.iter().chain(&second.frames).map(|frame| frame.sequence).collect();
    assert_eq!(numbers, [1, 2, 3]);
    assert_eq!(first.checksum_failures + first.parse_failures, 1);
    assert!(first.frames[0].valid && first.frames[0].error_code.is_none());
    assert!(!first.frames[1].valid && first.frames[1].error_code.is_some());
    assert_eq!(first.frames[1].fields.len(), 0);
    assert!(first.samples.iter().all(|sample| sample.frame_sequence == 1));
    assert!(second.samples.iter().all(|sample| sample.frame_sequence == 3));
    assert_eq!(first.frames[0].direction, chunk(1, b"").direction);
    assert_eq!(first.frames[0].monotonic_offset_ns, chunk(1, b"").monotonic_offset_ns);
}
