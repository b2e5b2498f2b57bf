//! Streams delimited records through a bounded buffer.
//!
//! A stream is a prefix, records separated by a delimiter, and a suffix. It
//! is read a buffer at a time; each time the buffer is split into the
//! records that are complete, which are handed to a transformer, and the
//! tail that is not, which is carried over to the next read.
//!
//! * `envelope`: prefix, suffix and delimiter, from a named profile and
//!   overrides.
//! * `pattern`: literal byte patterns in a byte text.
//! * `framer`: the split of one buffer.
//! * `text`: the test that bytes are text.
//! * `adapter`: the input of the transformer, and the verdict on each unit of
//!   its output.
//! * `orchestrator`: the decisions of a run, from one event to the next
//!   action.
//! * `metrics`, `error`, `progress`: counters, failures and byte counts for
//!   people to read.
//! * `laws`, `run_laws`, `stream_laws`, `text_laws`: what holds of all of
//!   it.
//!
//! The library reads no file and starts no program. Its caller does, as the
//! orchestrator tells it to.

pub mod adapter;
pub mod envelope;
pub mod error;
pub mod framer;
pub mod laws;
pub mod metrics;
pub mod orchestrator;
pub mod pattern;
pub mod progress;
pub mod run_laws;
pub mod stream_laws;
pub mod text;
pub mod text_laws;
