//! The display collaborator interface and the text it is given to draw.
//!
//! Rendering — fonts, pixels, the controller protocol — happens outside the
//! verified core. The value lines shown under the `Temperature:` and
//! `Humidity:` captions are composed here, with the same two-decimal-place
//! formatting the publish pipeline uses.

use crate::environment_sensor::EnvironmentReading;
use crate::json::{centi_rep, push_centi, push_str_bytes};
use vstd::prelude::*;
use vstd::string::StringSliceAdditionalSpecFns;

verus! {

/// Why the display collaborator failed. A draw failure is non-fatal: the
/// presenter logs and waits for the next snapshot; an init failure is fatal
/// to the display subsystem.
#[derive(Clone, Copy, Debug, PartialEq, Eq, Structural)]
pub enum DisplayError {
    Init,
    Draw,
    Comm,
}

/// The display collaborator: renders one reading per call. Implementations
/// live outside the verified core (they drive the controller).
pub trait Display {
    fn show_environment(&mut self, reading: EnvironmentReading) -> Result<(), DisplayError>;

    fn clear(&mut self) -> Result<(), DisplayError> {
        Ok(())
    }
}

/// The temperature value line, e.g. `23.50 C`.
pub fn format_temperature_line(reading: &EnvironmentReading) -> (line: Vec<u8>)
    ensures
        line@ == centi_rep(reading.temperature_centi as int) + (" C").spec_bytes(),
{
    let mut line: Vec<u8> = Vec::new();
    push_centi(&mut line, reading.temperature_centi);
    push_str_bytes(&mut line, " C");
    line
}

/// The humidity value line, e.g. `45.20 %`.
pub fn format_humidity_line(reading: &EnvironmentReading) -> (line: Vec<u8>)
    ensures
        line@ == centi_rep(reading.humidity_centi as int) + (" %").spec_bytes(),
{
    let mut line: Vec<u8> = Vec::new();
    push_centi(&mut line, reading.humidity_centi);
    push_str_bytes(&mut line, " %");
    line
}

} // verus!
