//! Verified core of an RDMA round-trip latency probe.
//!
//! The library holds the logic of the measurement: the message type, the
//! layout of the registered send and receive regions, the work requests that
//! an adapter posts, the bookkeeping of receive slots, the completion of a
//! batched send, the schedule of the probe, and the sample collector with its
//! reducers and CSV text. The fabric itself, the clock and the files are
//! driven from outside and reach the library as plain values.

pub mod args;
pub mod collector;
pub mod config;
pub mod csv;
pub mod layout;
pub mod message;
pub mod probe;
pub mod recv;
pub mod send;

pub use args::{log_level, Args, LogLevel};
pub use collector::{
    counter_freq, cycles_to_nanos, quantile_position, LatencyReport, Sample, SampleCollector,
};
pub use config::{
    completion_queue_depth, default_client_threads, default_server_threads, Config, ConfigError,
};
pub use csv::parse_csv;
pub use layout::{Completion, FabricError, RecvWorkRequest, SendWorkRequest, SlotLayout};
pub use message::Message;
pub use probe::{warmup_rounds, ProbeAction, ProbeDriver};
pub use recv::{Received, RecvPool, SlotState};
pub use send::{plan_send, rtt_cycles, SendPlan, SendRound};
