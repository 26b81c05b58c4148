//! Sensor polling policy: what the poller does with each acquisition result.
//!
//! The poller loop itself lives with the hardware: every tick it performs one
//! acquisition, turns the result into an event with [`reading_event`], and
//! enqueues it if there is one. A transient failure is skipped — no backoff,
//! no event; the next tick retries on its own schedule.

use crate::environment_sensor::{EnvironmentReading, EnvironmentSensorError};
use crate::events::Event;
use vstd::prelude::*;

verus! {

/// Fixed polling period: the poller suspends this long between acquisitions,
/// whatever the outcome of the read.
pub const SENSOR_POLLING_RATE_MS: u64 = 1000;

/// The event to enqueue for one acquisition outcome: a successful reading is
/// forwarded as a sensor event, a transient failure produces none and the
/// cycle is skipped.
pub fn reading_event(outcome: Result<EnvironmentReading, EnvironmentSensorError>) -> (e: Option<
    Event,
>)
    ensures
        match outcome {
            Ok(r) => e == Some(Event::SensorReading(r)),
            Err(_) => e is None,
        },
{
    match outcome {
        Ok(r) => Some(Event::SensorReading(r)),
        Err(_) => None,
    }
}

} // verus!
