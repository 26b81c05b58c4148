use home_monitor_node::display::Display;
use home_monitor_node::environment_sensor::{
    EnvironmentReading, EnvironmentSensor, EnvironmentSensorError,
};
use home_monitor_node::events::Event;
use home_monitor_node::mailbox::Mailbox;
use home_monitor_node::orchestrate::{DisplayData, Orchestrator};
use home_monitor_node::sensor::{reading_event, SENSOR_POLLING_RATE_MS};
use home_monitor_node::wifi::{WifiAction, WifiIo, WifiManager, WifiPhase, WifiState, WIFI_BACKOFF_MS};

#[test]
fn three_association_failures_emit_three_disconnected() {
    // Association failure three times in a row: exactly three Disconnected
    // events, a backoff wait between attempts, and never a Connected event.
    let mut m = WifiManager::new();
    assert_eq!(m.step(WifiIo::StartOk), Some(WifiState::Connecting));
    let mut emitted: Vec<WifiState> = Vec::new();
    for _ in 0..3 {
        assert_eq!(m.next_action(), WifiAction::AttemptConnect);
        if let Some(s) = m.step(WifiIo::ConnectErr) {
            emitted.push(s);
        }
        assert_eq!(m.next_action(), WifiAction::WaitBackoff);
        if let Some(s) = m.step(WifiIo::BackoffElapsed) {
            emitted.push(s);
        }
    }
    assert_eq!(
        emitted,
        vec![WifiState::Disconnected, WifiState::Disconnected, WifiState::Disconnected]
    );
}

#[test]
fn driver_start_failure_halts_permanently() {
    let mut m = WifiManager::new();
    assert_eq!(m.next_action(), WifiAction::StartDriver);
    assert_eq!(m.step(WifiIo::StartErr), Some(WifiState::Disconnected));
    assert_eq!(m.phase, WifiPhase::Halted);
    assert_eq!(m.next_action(), WifiAction::Halt);
    // No outcome revives a halted manager.
    assert_eq!(m.step(WifiIo::StartOk), None);
    assert_eq!(m.phase, WifiPhase::Halted);
}

#[test]
fn connect_disconnect_cycle_emits_one_event_per_transition() {
    let mut m = WifiManager::new();
    assert_eq!(m.step(WifiIo::StartOk), Some(WifiState::Connecting));
    assert_eq!(m.step(WifiIo::ConnectOk), Some(WifiState::Connected));
    assert_eq!(m.next_action(), WifiAction::AwaitDisconnect);
    assert_eq!(m.step(WifiIo::DisconnectNotice), Some(WifiState::Disconnected));
    assert_eq!(m.next_action(), WifiAction::WaitBackoff);
    assert_eq!(m.step(WifiIo::BackoffElapsed), None);
    assert_eq!(m.phase, WifiPhase::Connecting);
    assert_eq!(m.step(WifiIo::ConnectOk), Some(WifiState::Connected));
}

#[test]
fn mismatched_outcome_changes_nothing() {
    let mut m = WifiManager::new();
    assert_eq!(m.step(WifiIo::StartOk), Some(WifiState::Connecting));
    // A disconnect notice cannot arrive while still connecting.
    assert_eq!(m.step(WifiIo::DisconnectNotice), None);
    assert_eq!(m.phase, WifiPhase::Connecting);
}

struct ScriptedSensor {
    outcomes: Vec<Result<EnvironmentReading, EnvironmentSensorError>>,
}

impl EnvironmentSensor for ScriptedSensor {
    fn read(&mut self) -> Result<EnvironmentReading, EnvironmentSensorError> {
        self.outcomes.remove(0)
    }
}

struct RecordingDisplay {
    shown: Vec<EnvironmentReading>,
}

impl Display for RecordingDisplay {
    fn show_environment(
        &mut self,
        reading: EnvironmentReading,
    ) -> Result<(), home_monitor_node::display::DisplayError> {
        self.shown.push(reading);
        Ok(())
    }
}

#[test]
fn sensor_and_display_collaborators_plug_into_the_core() {
    let mut sensor = ScriptedSensor {
        outcomes: vec![
            Ok(EnvironmentReading::new(2350, 4520)),
            Err(EnvironmentSensorError::Bus),
        ],
    };
    let mut display = RecordingDisplay { shown: Vec::new() };

    // One poll cycle: a good read becomes an event, the display renders it.
    if let Some(Event::SensorReading(r)) = reading_event(sensor.read()) {
        assert!(display.show_environment(r).is_ok());
    } else {
        panic!("expected a sensor event");
    }
    // A transient failure produces no event and the cycle is skipped.
    assert_eq!(reading_event(sensor.read()), None);

    assert_eq!(display.shown, vec![EnvironmentReading::new(2350, 4520)]);
    // The default clear is a no-op that reports success.
    assert!(display.clear().is_ok());
}

#[test]
fn successful_read_becomes_an_event_and_failures_are_skipped() {
    let r = EnvironmentReading::new(2350, 4520);
    assert_eq!(reading_event(Ok(r)), Some(Event::SensorReading(r)));
    assert_eq!(reading_event(Err(EnvironmentSensorError::Bus)), None);
    assert_eq!(reading_event(Err(EnvironmentSensorError::Timeout)), None);
    assert_eq!(reading_event(Err(EnvironmentSensorError::InvalidData)), None);
    assert_eq!(SENSOR_POLLING_RATE_MS, 1000);
}

#[test]
fn wifi_backoff_is_five_seconds() {
    assert_eq!(WIFI_BACKOFF_MS, 5000);
}

#[test]
fn wifi_state_text_lines() {
    assert_eq!(WifiState::Connecting.text(), "Wifi: connecting");
    assert_eq!(WifiState::Connected.text(), "Wifi: connected");
    assert_eq!(WifiState::Disconnected.text(), "Wifi: disconnected");
}

#[test]
fn orchestrator_forwards_reading_with_current_status() {
    let mut o = Orchestrator::new();
    let mut display: Mailbox<DisplayData> = Mailbox::new();
    let mut publish: Mailbox<EnvironmentReading> = Mailbox::new();
    assert_eq!(o.wifi_state, WifiState::Connecting);

    let r = EnvironmentReading::new(2350, 4520);
    o.handle_event(Event::SensorReading(r), &mut display, &mut publish);
    assert_eq!(display.try_take(), Some(DisplayData::new(2350, 4520, WifiState::Connecting)));
    assert_eq!(publish.try_take(), Some(r));
}

#[test]
fn orchestrator_status_event_updates_state_only() {
    let mut o = Orchestrator::new();
    let mut display: Mailbox<DisplayData> = Mailbox::new();
    let mut publish: Mailbox<EnvironmentReading> = Mailbox::new();

    o.handle_event(Event::WifiStatus(WifiState::Connected), &mut display, &mut publish);
    assert_eq!(o.wifi_state, WifiState::Connected);
    // No push by itself: both mailboxes stay empty.
    assert_eq!(display.try_take(), None);
    assert_eq!(publish.try_take(), None);

    // The next reading carries the updated status onto the display.
    let r = EnvironmentReading::new(2101, 3999);
    o.handle_event(Event::SensorReading(r), &mut display, &mut publish);
    assert_eq!(display.try_take(), Some(DisplayData::new(2101, 3999, WifiState::Connected)));
    assert_eq!(publish.try_take(), Some(r));
}

#[test]
fn orchestrator_coalesces_unconsumed_snapshots() {
    // Readings arrive faster than the display drains: the consumer then
    // observes only the most recent snapshot.
    let mut o = Orchestrator::new();
    let mut display: Mailbox<DisplayData> = Mailbox::new();
    let mut publish: Mailbox<EnvironmentReading> = Mailbox::new();

    o.handle_event(
        Event::SensorReading(EnvironmentReading::new(2000, 4000)),
        &mut display,
        &mut publish,
    );
    o.handle_event(
        Event::SensorReading(EnvironmentReading::new(2100, 4100)),
        &mut display,
        &mut publish,
    );
    o.handle_event(
        Event::SensorReading(EnvironmentReading::new(2200, 4200)),
        &mut display,
        &mut publish,
    );
    assert_eq!(display.try_take(), Some(DisplayData::new(2200, 4200, WifiState::Connecting)));
    assert_eq!(publish.try_take(), Some(EnvironmentReading::new(2200, 4200)));
}
