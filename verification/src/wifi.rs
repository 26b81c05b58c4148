//! Connectivity state machine: association lifecycle, status events, and the
//! constant-backoff retry policy.
//!
//! The radio collaborator performs the actual driver start, association
//! attempt, disconnect wait and backoff sleep. The surrounding task loop asks
//! [`WifiManager::next_action`] what to await, performs it, and feeds the
//! outcome back through [`WifiManager::step`]. Every decision — which status
//! event to emit, whether to retry, when to halt — is made here.

use vstd::prelude::*;

verus! {

/// Backoff before retrying association, after a failed attempt or a drop.
/// Constant, not exponential; retries are unbounded in count.
pub const WIFI_BACKOFF_MS: u64 = 5000;

/// Connectivity status as surfaced to the rest of the node (and ultimately
/// the display). Exactly one such event is emitted per lifecycle transition.
#[derive(Clone, Copy, Debug, PartialEq, Eq, Structural)]
pub enum WifiState {
    Connecting,
    Connected,
    Disconnected,
}

impl WifiState {
    /// The status line shown on the display for this state.
    pub fn text(self) -> (r: &'static str)
        ensures
            self is Connecting ==> r@ == "Wifi: connecting"@,
            self is Connected ==> r@ == "Wifi: connected"@,
            self is Disconnected ==> r@ == "Wifi: disconnected"@,
    {
        match self {
            WifiState::Connecting => "Wifi: connecting",
            WifiState::Connected => "Wifi: connected",
            WifiState::Disconnected => "Wifi: disconnected",
        }
    }
}

/// Where the manager stands in the connect/disconnect lifecycle.
///
/// `Starting` precedes driver bring-up; `Backoff` is the fixed delay between
/// a drop or failed attempt and the next try; `Halted` is the fatal outcome
/// of a failed driver start — the manager never retries bring-up.
#[derive(Clone, Copy, Debug, PartialEq, Eq, Structural)]
pub enum WifiPhase {
    Starting,
    Connecting,
    Connected,
    Backoff,
    Halted,
}

/// Outcome of the one outside operation the manager was waiting on.
#[derive(Clone, Copy, Debug, PartialEq, Eq, Structural)]
pub enum WifiIo {
    StartOk,
    StartErr,
    ConnectOk,
    ConnectErr,
    DisconnectNotice,
    BackoffElapsed,
}

/// What the surrounding task must await next.
#[derive(Clone, Copy, Debug, PartialEq, Eq, Structural)]
pub enum WifiAction {
    /// Start the radio driver; feed back `StartOk` or `StartErr`.
    StartDriver,
    /// Attempt association; feed back `ConnectOk` or `ConnectErr`.
    AttemptConnect,
    /// Wait for a disconnect notification; feed back `DisconnectNotice`.
    AwaitDisconnect,
    /// Sleep [`WIFI_BACKOFF_MS`]; feed back `BackoffElapsed`.
    WaitBackoff,
    /// The manager has terminated permanently; await nothing.
    Halt,
}

/// The outside outcomes that awaiting `action` can produce.
pub open spec fn io_matches_action(action: WifiAction, io: WifiIo) -> bool {
    match action {
        WifiAction::StartDriver => io is StartOk || io is StartErr,
        WifiAction::AttemptConnect => io is ConnectOk || io is ConnectErr,
        WifiAction::AwaitDisconnect => io is DisconnectNotice,
        WifiAction::WaitBackoff => io is BackoffElapsed,
        WifiAction::Halt => false,
    }
}

/// The operation the manager awaits in each phase.
pub open spec fn spec_next_action(phase: WifiPhase) -> WifiAction {
    match phase {
        WifiPhase::Starting => WifiAction::StartDriver,
        WifiPhase::Connecting => WifiAction::AttemptConnect,
        WifiPhase::Connected => WifiAction::AwaitDisconnect,
        WifiPhase::Backoff => WifiAction::WaitBackoff,
        WifiPhase::Halted => WifiAction::Halt,
    }
}

/// The phase after `io` arrives in `phase`. An outcome that the awaited
/// operation cannot produce leaves the phase unchanged.
pub open spec fn spec_step_phase(phase: WifiPhase, io: WifiIo) -> WifiPhase {
    if io_matches_action(spec_next_action(phase), io) {
        match (phase, io) {
            (WifiPhase::Starting, WifiIo::StartOk) => WifiPhase::Connecting,
            (WifiPhase::Starting, WifiIo::StartErr) => WifiPhase::Halted,
            (WifiPhase::Connecting, WifiIo::ConnectOk) => WifiPhase::Connected,
            (WifiPhase::Connecting, WifiIo::ConnectErr) => WifiPhase::Backoff,
            (WifiPhase::Connected, WifiIo::DisconnectNotice) => WifiPhase::Backoff,
            (WifiPhase::Backoff, WifiIo::BackoffElapsed) => WifiPhase::Connecting,
            _ => phase,
        }
    } else {
        phase
    }
}

/// The status event emitted when `io` arrives in `phase`: exactly one per
/// lifecycle transition, none otherwise. Re-entering `Connecting` after a
/// backoff emits nothing — the consumers already hold `Disconnected`, and
/// `Connecting` was announced once, after driver start.
pub open spec fn spec_step_emit(phase: WifiPhase, io: WifiIo) -> Option<WifiState> {
    if io_matches_action(spec_next_action(phase), io) {
        match (phase, io) {
            (WifiPhase::Starting, WifiIo::StartOk) => Some(WifiState::Connecting),
            (WifiPhase::Starting, WifiIo::StartErr) => Some(WifiState::Disconnected),
            (WifiPhase::Connecting, WifiIo::ConnectOk) => Some(WifiState::Connected),
            (WifiPhase::Connecting, WifiIo::ConnectErr) => Some(WifiState::Disconnected),
            (WifiPhase::Connected, WifiIo::DisconnectNotice) => Some(WifiState::Disconnected),
            _ => None,
        }
    } else {
        None
    }
}

/// Drives the association lifecycle. Owns nothing but the phase; the radio
/// itself belongs to the collaborator that performs the awaited operations.
pub struct WifiManager {
    pub phase: WifiPhase,
}

impl WifiManager {
    /// A manager about to bring the radio driver up.
    pub fn new() -> (m: WifiManager)
        ensures
            m.phase is Starting,
    {
        WifiManager { phase: WifiPhase::Starting }
    }

    /// What the task loop must await before the next `step`.
    pub fn next_action(&self) -> (a: WifiAction)
        ensures
            a == spec_next_action(self.phase),
    {
        match self.phase {
            WifiPhase::Starting => WifiAction::StartDriver,
            WifiPhase::Connecting => WifiAction::AttemptConnect,
            WifiPhase::Connected => WifiAction::AwaitDisconnect,
            WifiPhase::Backoff => WifiAction::WaitBackoff,
            WifiPhase::Halted => WifiAction::Halt,
        }
    }

    /// Advance on the outcome of the awaited operation and return the status
    /// event to enqueue, if this transition emits one.
    pub fn step(&mut self, io: WifiIo) -> (emit: Option<WifiState>)
        ensures
            final(self).phase == spec_step_phase(old(self).phase, io),
            emit == spec_step_emit(old(self).phase, io),
    {
        match (self.phase, io) {
            (WifiPhase::Starting, WifiIo::StartOk) => {
                self.phase = WifiPhase::Connecting;
                Some(WifiState::Connecting)
            },
            (WifiPhase::Starting, WifiIo::StartErr) => {
                self.phase = WifiPhase::Halted;
                Some(WifiState::Disconnected)
            },
            (WifiPhase::Connecting, WifiIo::ConnectOk) => {
                self.phase = WifiPhase::Connected;
                Some(WifiState::Connected)
            },
            (WifiPhase::Connecting, WifiIo::ConnectErr) => {
                self.phase = WifiPhase::Backoff;
                Some(WifiState::Disconnected)
            },
            (WifiPhase::Connected, WifiIo::DisconnectNotice) => {
                self.phase = WifiPhase::Backoff;
                Some(WifiState::Disconnected)
            },
            (WifiPhase::Backoff, WifiIo::BackoffElapsed) => {
                self.phase = WifiPhase::Connecting;
                None
            },
            _ => None,
        }
    }
}

/// Every status event emitted by a run of the machine from `phase` through
/// the outcomes `ios`, in order.
pub open spec fn run_emissions(phase: WifiPhase, ios: Seq<WifiIo>) -> Seq<WifiState>
    decreases ios.len(),
{
    if ios.len() == 0 {
        Seq::empty()
    } else {
        (match spec_step_emit(phase, ios.first()) {
            Some(s) => seq![s],
            None => Seq::empty(),
        }) + run_emissions(spec_step_phase(phase, ios.first()), ios.drop_first())
    }
}

/// An attempt in `Connecting` always resolves into exactly one status event,
/// and that event is `Connected` or `Disconnected`: the manager never leaves
/// `Connecting` silently, never emits two events for one attempt, and never
/// stays in `Connecting` once the association attempt has resolved. (That
/// the attempt resolves at all is the radio collaborator's obligation.)
pub proof fn lemma_connecting_resolves(io: WifiIo)
    requires
        io is ConnectOk || io is ConnectErr,
    ensures
        spec_step_emit(WifiPhase::Connecting, io) is Some,
        spec_step_emit(WifiPhase::Connecting, io) == Some(WifiState::Connected) || spec_step_emit(
            WifiPhase::Connecting,
            io,
        ) == Some(WifiState::Disconnected),
        spec_step_phase(WifiPhase::Connecting, io) != WifiPhase::Connecting,
{
}

/// A failed driver start is fatal: once halted, no outcome moves the
/// manager again and no further status event is ever emitted.
pub proof fn lemma_halt_is_permanent(io: WifiIo)
    ensures
        spec_step_phase(WifiPhase::Halted, io) == WifiPhase::Halted,
        spec_step_emit(WifiPhase::Halted, io) is None,
{
}

/// No `Connected` event directly follows another `Connected` event.
pub open spec fn alternates(emitted: Seq<WifiState>) -> bool {
    forall|i: int|
        0 <= i < emitted.len() - 1 && (#[trigger] emitted[i]) is Connected ==> emitted[i
            + 1] is Disconnected
}

proof fn lemma_alternates_cons(s: WifiState, rest: Seq<WifiState>)
    requires
        alternates(rest),
        s is Connected && rest.len() > 0 ==> rest.first() is Disconnected,
    ensures
        alternates(seq![s] + rest),
{
    let whole = seq![s] + rest;
    assert forall|i: int|
        0 <= i < whole.len() - 1 && (#[trigger] whole[i]) is Connected implies whole[i
        + 1] is Disconnected by {
        if i == 0 {
            assert(whole[1] == rest.first());
        } else {
            assert(whole[i] == rest[i - 1]);
            assert(whole[i + 1] == rest[i]);
        }
    }
}

#[verifier::rlimit(100)]
proof fn lemma_run_alternates(phase: WifiPhase, ios: Seq<WifiIo>)
    ensures
        alternates(run_emissions(phase, ios)),
        phase is Connected && run_emissions(phase, ios).len() > 0 ==> run_emissions(
            phase,
            ios,
        ).first() is Disconnected,
    decreases ios.len(),
{
    if ios.len() == 0 {
    } else {
        let io = ios.first();
        let next = spec_step_phase(phase, io);
        let rest = run_emissions(next, ios.drop_first());
        lemma_run_alternates(next, ios.drop_first());
        match spec_step_emit(phase, io) {
            Some(s) => {
                // A step can emit `Connected` only from `Connecting`, and it
                // then moves to `Connected`, whose next emission (if any) is
                // `Disconnected` by the inductive hypothesis.
                lemma_alternates_cons(s, rest);
                assert(run_emissions(phase, ios) == seq![s] + rest);
            },
            None => {
                // A silent step never leaves `Connected`, so the inductive
                // hypothesis carries over unchanged.
                assert(run_emissions(phase, ios) =~= rest);
            },
        }
    }
}

/// Status events alternate: in any run from bring-up, a `Connected` event is
/// never followed by another `Connected` — a drop always surfaces as a
/// `Disconnected` event before the node can announce `Connected` again.
pub proof fn lemma_no_skipped_disconnect(ios: Seq<WifiIo>)
    ensures
        alternates(run_emissions(WifiPhase::Starting, ios)),
{
    lemma_run_alternates(WifiPhase::Starting, ios);
}

} // verus!
