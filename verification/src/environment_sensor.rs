//! The environment reading value type and the sensor collaborator interface.
//!
//! Temperature and humidity are carried as integer hundredths (centi-degrees
//! Celsius and centi-percent relative humidity). The serialized wire format
//! prints exactly two decimal places, so hundredths represent every value the
//! node can emit, without floating point.

use vstd::prelude::*;

verus! {

/// One temperature/humidity sample, in hundredths of a degree Celsius and
/// hundredths of a percent relative humidity. `2350` means `23.50`.
#[derive(Clone, Copy, Debug, PartialEq, Eq, Structural)]
pub struct EnvironmentReading {
    pub temperature_centi: i32,
    pub humidity_centi: i32,
}

impl EnvironmentReading {
    pub fn new(temperature_centi: i32, humidity_centi: i32) -> (r: EnvironmentReading)
        ensures
            r.temperature_centi == temperature_centi,
            r.humidity_centi == humidity_centi,
    {
        EnvironmentReading { temperature_centi, humidity_centi }
    }
}

/// Why a sensor acquisition failed. Every variant is transient: the poller
/// logs, skips the cycle, and retries at the next tick.
#[derive(Clone, Copy, Debug, PartialEq, Eq, Structural)]
pub enum EnvironmentSensorError {
    Bus,
    Timeout,
    InvalidData,
}

/// The sensor collaborator: one complete acquisition per call. Implementations
/// live outside the verified core (they drive the bus).
pub trait EnvironmentSensor {
    fn read(&mut self) -> Result<EnvironmentReading, EnvironmentSensorError>;
}

} // verus!
