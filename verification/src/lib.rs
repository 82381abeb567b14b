//! The core of a desktop toolbox for embedded devices: framing, decoding, queueing,
//! recording and replay of serial telemetry.

pub mod app_core;
pub mod checksum;
pub mod disconnect_laws;
pub mod envelope;
pub mod error;
pub mod event;
pub mod event_laws;
pub mod framer;
pub mod framer_laws;
pub mod ident;
pub mod idmap;
pub mod json;
pub mod math;
pub mod model;
pub mod numeral;
pub mod pipeline;
pub mod pipeline_laws;
pub mod project;
pub mod queue;
pub mod reconnect;
pub mod recovery;
pub mod replay;
pub mod runtime;
pub mod runtime_laws;
pub mod search;
pub mod session;
pub mod synthetic;
pub mod synthetic_laws;
pub mod text;
pub mod transform;
pub mod transport;
pub mod tx;
