//! The event type carried by the node's single event queue.

use crate::environment_sensor::EnvironmentReading;
use crate::wifi::WifiState;
use vstd::prelude::*;

verus! {

/// Capacity of the event queue between the producers (sensor poller,
/// connectivity manager) and the orchestrator.
pub const EVENT_CHANNEL_SIZE: usize = 10;

/// One event on the queue: a fresh sensor reading, or a connectivity status
/// transition. Immutable once enqueued; consumed exactly once.
#[derive(Clone, Copy, Debug, PartialEq, Eq, Structural)]
pub enum Event {
    SensorReading(EnvironmentReading),
    WifiStatus(WifiState),
}

} // verus!
