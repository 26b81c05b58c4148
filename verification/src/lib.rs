//! Control core of an embedded environmental-monitoring node.
//!
//! The node samples a temperature/humidity sensor, shows the latest reading
//! and connectivity status on a local display, keeps a wireless association
//! alive, and publishes readings to a remote collector over HTTP/1.1.
//!
//! This crate holds the verified core: the event queue and latest-value
//! mailbox that decouple producers from consumers, the connectivity state
//! machine with its constant-backoff retry policy, the orchestrator that
//! combines sensor and connectivity events, and the publish pipeline's
//! serialization, request assembly, connection-reuse and failure-recovery
//! logic. Hardware drivers, the radio, sockets and timers are outside
//! collaborators: the surrounding application performs that I/O and feeds
//! the outcomes into the step functions defined here.

pub mod display;
pub mod environment_sensor;
pub mod events;
pub mod http;
pub mod json;
pub mod mailbox;
pub mod orchestrate;
pub mod publisher;
pub mod queue;
pub mod sensor;
pub mod sht3x;
pub mod wifi;
