use embedded_toolbox::ident::Uuid;
use embedded_toolbox::math::{Operation, RawNumber, SampleMath};
use embedded_toolbox::model::{ResetReason, TransformSpec};
use embedded_toolbox::transform::TransformEngine;

struct Doubles;

impl SampleMath<f64> for Doubles {
    fn parse(&self, text: String) -> Result<f64, String> {
        text.parse::<f64>().map_err(|error| error.to_string())
    }

    fn number(&self, raw: RawNumber) -> f64 {
        match raw {
            RawNumber::Unsigned(value) => value as f64,
            RawNumber::Signed(value) => value as f64,
            RawNumber::Float32(bits) => f32::from_bits(bits) as f64,
            RawNumber::Float64(bits) => f64::from_bits(bits),
        }
    }

    fn evaluate(&self, operation: Operation<f64>) -> f64 {
        match operation {
            Operation::Zero => 0.0,
            Operation::ScaleBias { value, scale, bias } => value * scale + bias,
            Operation::Blend { value, old, alpha } => {
                alpha.clamp(0.0, 1.0) * value + (1.0 - alpha.clamp(0.0, 1.0)) * old
            }
            Operation::Sum { left, right } => left + right,
            Operation::Difference { left, right } => left - right,
            Operation::Mean { sum, count } => sum / count as f64,
            Operation::Slope { value, old, elapsed_ns } => {
                (value - old) / (elapsed_ns as f64 / 1_000_000_000.0)
            }
        }
    }

    fn is_finite(&self, value: f64) -> bool {
        value.is_finite()
    }
}

#[test]
fn reset_clears_stateful_transform_history() {
    let channel = Uuid::now_v7();
    let source = Uuid::now_v7();
    let spec = TransformSpec::Ema {
        id: Uuid::now_v7(),
        alpha: 0.5,
    };
    let mut engine = TransformEngine::default();
    assert_eq!(
        engine.apply(source, channel, std::slice::from_ref(&spec), 10.0, 0, &Doubles),
        10.0
    );
    assert_eq!(
        engine.apply(source, channel, std::slice::from_ref(&spec), 20.0, 1, &Doubles),
        15.0
    );
    engine.reset(ResetReason::EpochChanged);
    assert_eq!(engine.apply(source, channel, &[spec], 20.0, 2, &Doubles), 20.0);
}

#[test]
fn a_moving_average_covers_its_window() {
    let (source, channel) = (Uuid::now_v7(), Uuid::now_v7());
    let spec = [TransformSpec::MovingAverage { id: Uuid::now_v7(), window: 2 }];
    let mut engine = TransformEngine::new();
    let values: Vec<f64> = [2.0, 4.0, 8.0]
        .iter()
        .map(|value| engine.apply(source, channel, &spec, *value, 0, &Doubles))
        .collect();
    assert_eq!(values, [2.0, 3.0, 6.0]);
}

#[test]
fn a_window_of_nothing_holds_one_value() {
    let (source, channel) = (Uuid::now_v7(), Uuid::now_v7());
    let spec = [TransformSpec::MovingAverage { id: Uuid::now_v7(), window: 0 }];
    let mut engine = TransformEngine::new();
    engine.apply(source, channel, &spec, 2.0, 0, &Doubles);
    assert_eq!(engine.apply(source, channel, &spec, 7.0, 0, &Doubles), 7.0);
}

#[test]
fn a_derivative_is_per_second() {
    let (source, channel) = (Uuid::now_v7(), Uuid::now_v7());
    let spec = [TransformSpec::Derivative { id: Uuid::now_v7() }];
    let mut engine = TransformEngine::new();
    assert_eq!(engine.apply(source, channel, &spec, 1.0, 0, &Doubles), 0.0);
    assert_eq!(engine.apply(source, channel, &spec, 3.0, 500_000_000, &Doubles), 4.0);
    assert_eq!(engine.apply(source, channel, &spec, 9.0, 500_000_000, &Doubles), 0.0);
}

#[test]
fn transforms_follow_one_another() {
    let (source, channel) = (Uuid::now_v7(), Uuid::now_v7());
    let spec = [
        TransformSpec::ScaleBias { id: Uuid::now_v7(), scale: 2.0, bias: 1.0 },
        TransformSpec::ScaleBias { id: Uuid::now_v7(), scale: 10.0, bias: 0.0 },
    ];
    let mut engine = TransformEngine::new();
    assert_eq!(engine.apply(source, channel, &spec, 3.0, 0, &Doubles), 70.0);
}

#[test]
fn channels_keep_their_own_history() {
    let source = Uuid::now_v7();
    let (left, right) = (Uuid::now_v7(), Uuid::now_v7());
    let spec = [TransformSpec::Ema { id: Uuid::now_v7(), alpha: 0.5 }];
    let mut engine = TransformEngine::new();
    engine.apply(source, left, &spec, 10.0, 0, &Doubles);
    assert_eq!(engine.apply(source, right, &spec, 20.0, 0, &Doubles), 20.0);
    assert_eq!(engine.apply(source, left, &spec, 20.0, 0, &Doubles), 15.0);
}

#[test]
fn only_some_resets_warm_up() {
    let mut engine: TransformEngine<f64> = TransformEngine::new();
    engine.reset(ResetReason::ReplaySeek);
    assert!(engine.warming);
    assert_eq!(engine.last_reset, Some(ResetReason::ReplaySeek));
    engine.reset(ResetReason::Connect);
    assert!(!engine.warming);
    engine.reset(ResetReason::StreamGap);
    assert!(engine.warming);
    engine.apply(Uuid::nil(), Uuid::nil(), &[], 1.0, 0, &Doubles);
    assert!(!engine.warming);
}
