//! Error classification for the temperature/humidity sensor driver.
//!
//! The driver itself speaks the register-level bus protocol and lives with
//! the hardware, outside the verified core; it reports every failure as one
//! of these transient kinds.

use vstd::prelude::*;

verus! {

/// How a sensor transaction failed: a bus-level error, a timeout, or data
/// that arrived but did not validate (bad checksum). All are transient.
#[derive(Clone, Copy, Debug, PartialEq, Eq, Structural)]
pub enum Sht3xError {
    Bus,
    Timeout,
    InvalidData,
}

} // verus!
