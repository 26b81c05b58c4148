//! The orchestrator: sole consumer of the event queue.
//!
//! A pure reducer over events. It retains the last-seen connectivity state;
//! a sensor reading is combined with that state into a display snapshot and
//! forwarded to both hand-off mailboxes, while a status event only updates
//! the retained state — the next reading carries the new status onto the
//! display.

use crate::environment_sensor::EnvironmentReading;
use crate::events::Event;
use crate::mailbox::Mailbox;
use crate::wifi::WifiState;
use vstd::prelude::*;

verus! {

/// What the display shows: the latest reading together with the
/// connectivity status current when that reading arrived.
#[derive(Clone, Copy, Debug, PartialEq, Eq, Structural)]
pub struct DisplayData {
    pub temperature_centi: i32,
    pub humidity_centi: i32,
    pub wifi_state: WifiState,
}

impl DisplayData {
    pub fn new(temperature_centi: i32, humidity_centi: i32, wifi_state: WifiState) -> (d:
        DisplayData)
        ensures
            d.temperature_centi == temperature_centi,
            d.humidity_centi == humidity_centi,
            d.wifi_state == wifi_state,
    {
        DisplayData { temperature_centi, humidity_centi, wifi_state }
    }
}

/// Retains the last-seen connectivity state between events.
pub struct Orchestrator {
    pub wifi_state: WifiState,
}

impl Orchestrator {
    /// Before any status event has arrived the node reports `Connecting`.
    pub fn new() -> (o: Orchestrator)
        ensures
            o.wifi_state is Connecting,
    {
        Orchestrator { wifi_state: WifiState::Connecting }
    }

    /// Consume one event. A reading `r` publishes the snapshot
    /// `{r, current status}` to the display mailbox and `r` itself to the
    /// publish mailbox, coalescing over anything unconsumed there; a status
    /// event only updates the retained state and touches neither mailbox.
    pub fn handle_event(
        &mut self,
        event: Event,
        display: &mut Mailbox<DisplayData>,
        publish: &mut Mailbox<EnvironmentReading>,
    )
        ensures
            match event {
                Event::SensorReading(r) => {
                    &&& final(self).wifi_state == old(self).wifi_state
                    &&& final(display)@ == Some(
                        DisplayData {
                            temperature_centi: r.temperature_centi,
                            humidity_centi: r.humidity_centi,
                            wifi_state: old(self).wifi_state,
                        },
                    )
                    &&& final(publish)@ == Some(r)
                },
                Event::WifiStatus(s) => {
                    &&& final(self).wifi_state == s
                    &&& final(display)@ == old(display)@
                    &&& final(publish)@ == old(publish)@
                },
            },
    {
        match event {
            Event::SensorReading(r) => {
                display.publish(
                    DisplayData::new(r.temperature_centi, r.humidity_centi, self.wifi_state),
                );
                publish.publish(r);
            },
            Event::WifiStatus(s) => {
                self.wifi_state = s;
            },
        }
    }
}

} // verus!
