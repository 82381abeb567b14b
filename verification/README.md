# Embedded Toolbox core

The core of a desktop workbench for embedded devices: it cuts serial telemetry into
frames, checks and decodes them, smooths and samples the values, keeps bounded queues for
every consumer, records sessions, plays them back and schedules what is sent.

The library under `src/` is written in Verus. Functions state what they do and are proved
to do it, except for those that call what lies outside; laws that relate several functions
are public proof functions named `law_...`.

| Modules | What they hold |
|---|---|
| `framer`, `framer_laws`, `search`, `numeral` | cutting a byte stream into frames |
| `checksum`, `pipeline`, `pipeline_laws`, `transform`, `json`, `text`, `math` | from chunks to samples |
| `envelope` | the binary envelope of the data streams |
| `queue`, `runtime`, `runtime_laws` | bounded queues and the life of one connection |
| `tx`, `synthetic`, `synthetic_laws`, `transport`, `reconnect` | sending, generated data, serial lines |
| `session`, `recovery`, `replay` | recording, recovery and playing back |
| `event`, `event_laws`, `error`, `model`, `project`, `ident`, `idmap` | state, events and data |
| `app_core`, `disconnect_laws` | the workbench as a whole |

## What is believed without proof

These functions are marked `external_body`. Each makes one outside call, and its contract
says what is taken for granted of it.

| Function | Outside call |
|---|---|
| `ident::now_v7_value` | `uuid::Uuid::now_v7` |
| `ident::parse_value` | `uuid::Uuid::parse_str` |
| `ident::display_value` | the `Display` implementation of `uuid::Uuid` |
| `ident::bytes_of_value` | `uuid::Uuid::as_bytes` |
| `json::parse_document` | `serde_json::from_slice` |
| `json::get` | `serde_json::Value::get` |
| `json::number_bits` | `serde_json::Value::as_f64` |
| `text::decode_text` | `std::str::from_utf8` |
| `model::share` | `Arc::clone` |
| `session::read_clock` | `std::time::SystemTime::now` |
| `session::since_unix_epoch` | `std::time::SystemTime::duration_since` |
| `session::all_nanoseconds` | `std::time::Duration::as_nanos` |

Two outside types are declared: `serde_json::Value` as `json::ExValue`, and
`std::time::SystemTime` as `session::ExSystemTime`. Four names stand for what outside code
returns: `ident::uuid_from_text`, `text::utf8_error_text`, `json::json_entries` and
`json::json_document`.

The trait `math::SampleMath`, by which the application computes with sample values, has no
contract: whatever an implementation returns is passed on.

## Sample values

Sample values are a type parameter: the library decides which operations happen on which
values, the application says how they are computed.

## Around the library

`app/` is ordinary Rust around the library: threads, serial ports, SQLite files, JSON and
the commands of the user interface. `tests/` exercises the library on concrete values.
