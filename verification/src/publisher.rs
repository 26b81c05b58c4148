//! Publish pipeline state: connection reuse, failure recovery, and the
//! minimum spacing between publishes.
//!
//! The publisher owns one logical connection handle, kept alive across
//! publishes instead of reopened per request. The surrounding task loop
//! performs the socket operations (connect, write, flush, bounded read) and
//! reports each outcome here; every decision — when a fresh connect is
//! needed, when to hard-abort, how long to hold off the next publish — is
//! made by these step functions. A reading whose publish fails is abandoned,
//! never retried by itself: the next mailbox value drives the next attempt.

use vstd::prelude::*;

verus! {

/// Minimum spacing between consecutive accepted publish starts.
pub const MIN_PUBLISH_INTERVAL_MS: u64 = 10000;

/// How long the task sleeps after a failed connect before waiting for the
/// next mailbox value.
pub const CONNECT_RETRY_DELAY_MS: u64 = 3000;

/// Bound on the optional response read; a timeout with no data is the
/// expected keep-alive idle outcome.
pub const RESPONSE_READ_TIMEOUT_MS: u64 = 500;

/// Socket-level inactivity timeout configured on the connection.
pub const SOCKET_TIMEOUT_MS: u64 = 20000;

/// Keep-alive probe interval configured on the connection.
pub const SOCKET_KEEP_ALIVE_MS: u64 = 15000;

/// State of the one reusable connection handle.
#[derive(Clone, Copy, Debug, PartialEq, Eq, Structural)]
pub enum ConnState {
    Closed,
    Connecting,
    Established,
}

/// Outcome of the bounded response read after a publish.
#[derive(Clone, Copy, Debug, PartialEq, Eq, Structural)]
pub enum ReadOutcome {
    /// A zero-length read: the remote closed the connection.
    RemoteClosed,
    /// Some bytes arrived; they are logged and the connection stays open.
    DataReceived,
    /// The read itself failed.
    ReadFailed,
    /// No data within the bound: the expected keep-alive idle outcome.
    TimedOut,
}

/// The publisher's retained state: the connection handle's state and the
/// time the most recent accepted publish began.
pub struct Publisher {
    pub conn: ConnState,
    pub last_start: Option<u64>,
}

/// Milliseconds the publisher must still hold off before accepting the next
/// mailbox value at time `now`: zero once the minimum interval has elapsed
/// since the previous publish began (or if none ever did).
pub open spec fn spec_publish_delay(p: Publisher, now: u64) -> int {
    match p.last_start {
        None => 0,
        Some(t) => if now >= t + MIN_PUBLISH_INTERVAL_MS {
            0
        } else {
            t + MIN_PUBLISH_INTERVAL_MS - now
        },
    }
}

/// Whether a publish may begin at `now`.
pub open spec fn spec_may_start(p: Publisher, now: u64) -> bool {
    spec_publish_delay(p, now) == 0
}

/// The publisher after trying to begin a publish at `now`.
pub open spec fn spec_after_start(p: Publisher, now: u64) -> Publisher {
    if spec_may_start(p, now) {
        Publisher { conn: p.conn, last_start: Some(now) }
    } else {
        p
    }
}

/// The connection after a connect attempt resolves.
pub open spec fn spec_after_connect(p: Publisher, ok: bool) -> Publisher {
    Publisher {
        conn: if ok {
            ConnState::Established
        } else {
            ConnState::Closed
        },
        last_start: p.last_start,
    }
}

/// The connection after a write or flush resolves: any error hard-aborts.
pub open spec fn spec_after_send(p: Publisher, ok: bool) -> Publisher {
    Publisher {
        conn: if ok {
            ConnState::Established
        } else {
            ConnState::Closed
        },
        last_start: p.last_start,
    }
}

/// The connection after the bounded response read: a remote close or a read
/// error hard-aborts; data or a quiet timeout keeps the connection.
pub open spec fn spec_after_response(p: Publisher, outcome: ReadOutcome) -> Publisher {
    Publisher {
        conn: match outcome {
            ReadOutcome::RemoteClosed => ConnState::Closed,
            ReadOutcome::DataReceived => ConnState::Established,
            ReadOutcome::ReadFailed => ConnState::Closed,
            ReadOutcome::TimedOut => ConnState::Established,
        },
        last_start: p.last_start,
    }
}

impl Publisher {
    /// A publisher with no connection and no publish on record.
    pub fn new() -> (p: Publisher)
        ensures
            p.conn is Closed,
            p.last_start is None,
    {
        Publisher { conn: ConnState::Closed, last_start: None }
    }

    /// How long to suspend before accepting the next mailbox value.
    /// The clock is monotonic: `now` never precedes the recorded start.
    pub fn next_publish_delay(&self, now: u64) -> (delay: u64)
        requires
            match self.last_start {
                Some(t) => now >= t,
                None => true,
            },
        ensures
            delay == spec_publish_delay(*self, now),
    {
        match self.last_start {
            None => 0,
            Some(t) => {
                let elapsed = now - t;
                if elapsed >= MIN_PUBLISH_INTERVAL_MS {
                    0
                } else {
                    MIN_PUBLISH_INTERVAL_MS - elapsed
                }
            },
        }
    }

    /// Begin a publish at `now`. Accepted exactly when the minimum interval
    /// has elapsed since the previous accepted start; an accepted start is
    /// recorded, a rejected one changes nothing and the caller must wait
    /// [`Publisher::next_publish_delay`] first.
    pub fn start_publish(&mut self, now: u64) -> (accepted: bool)
        requires
            match old(self).last_start {
                Some(t) => now >= t,
                None => true,
            },
        ensures
            accepted == spec_may_start(*old(self), now),
            *final(self) == spec_after_start(*old(self), now),
    {
        let delay = self.next_publish_delay(now);
        if delay == 0 {
            self.last_start = Some(now);
            true
        } else {
            false
        }
    }

    /// Whether this publish must open a fresh connection first.
    pub fn needs_connect(&self) -> (b: bool)
        ensures
            b <==> !(self.conn is Established),
    {
        !matches!(self.conn, ConnState::Established)
    }

    /// Force a stuck handle down before reconnecting: anything neither
    /// `Established` nor already `Closed` is hard-aborted. Returns whether
    /// an abort was issued, so the caller can abort the real socket.
    pub fn reset_if_stuck(&mut self) -> (aborted: bool)
        ensures
            final(self).last_start == old(self).last_start,
            final(self).conn == if old(self).conn is Established {
                ConnState::Established
            } else {
                ConnState::Closed
            },
            aborted <==> (old(self).conn is Connecting),
    {
        match self.conn {
            ConnState::Established => false,
            ConnState::Closed => false,
            ConnState::Connecting => {
                self.conn = ConnState::Closed;
                true
            },
        }
    }

    /// A connect attempt with a bounded timeout is being issued.
    pub fn begin_connect(&mut self)
        requires
            old(self).conn is Closed,
        ensures
            final(self).conn is Connecting,
            final(self).last_start == old(self).last_start,
    {
        self.conn = ConnState::Connecting;
    }

    /// The connect attempt resolved. On failure the handle is down and the
    /// reading is abandoned: the caller sleeps [`CONNECT_RETRY_DELAY_MS`]
    /// and returns to the mailbox wait.
    pub fn on_connect_result(&mut self, ok: bool)
        requires
            old(self).conn is Connecting,
        ensures
            *final(self) == spec_after_connect(*old(self), ok),
    {
        self.conn = if ok {
            ConnState::Established
        } else {
            ConnState::Closed
        };
    }

    /// A write or flush of the request resolved. Any error hard-aborts the
    /// connection — never a graceful close, never a mid-request retry — and
    /// the caller abandons this reading.
    pub fn on_send_outcome(&mut self, ok: bool)
        requires
            old(self).conn is Established,
        ensures
            *final(self) == spec_after_send(*old(self), ok),
    {
        if !ok {
            self.conn = ConnState::Closed;
        }
    }

    /// The bounded response read resolved. A zero-length read (remote close)
    /// or a read error hard-aborts; received data and the quiet keep-alive
    /// timeout leave the connection established for the next publish.
    pub fn on_response(&mut self, outcome: ReadOutcome)
        requires
            old(self).conn is Established,
        ensures
            *final(self) == spec_after_response(*old(self), outcome),
    {
        match outcome {
            ReadOutcome::RemoteClosed => {
                self.conn = ConnState::Closed;
            },
            ReadOutcome::ReadFailed => {
                self.conn = ConnState::Closed;
            },
            ReadOutcome::DataReceived => {},
            ReadOutcome::TimedOut => {},
        }
    }
}

/// The accepted publish start times when values arrive at `times` and the
/// publisher holds each against the minimum interval.
pub open spec fn accepted_starts(p: Publisher, times: Seq<u64>) -> Seq<u64>
    decreases times.len(),
{
    if times.len() == 0 {
        Seq::empty()
    } else {
        (if spec_may_start(p, times.first()) {
            seq![times.first()]
        } else {
            Seq::empty()
        }) + accepted_starts(spec_after_start(p, times.first()), times.drop_first())
    }
}

/// Consecutive elements are at least the minimum publish interval apart.
pub open spec fn spaced(starts: Seq<u64>) -> bool {
    forall|i: int|
        0 <= i < starts.len() - 1 ==> (#[trigger] starts[i]) + MIN_PUBLISH_INTERVAL_MS <= starts[i
            + 1]
}

/// The clock never runs backwards over the sequence.
pub open spec fn nondecreasing(times: Seq<u64>) -> bool {
    forall|i: int| 0 <= i < times.len() - 1 ==> (#[trigger] times[i]) <= times[i + 1]
}

proof fn lemma_spaced_cons(t: u64, rest: Seq<u64>)
    requires
        spaced(rest),
        rest.len() > 0 ==> t + MIN_PUBLISH_INTERVAL_MS <= rest.first(),
    ensures
        spaced(seq![t] + rest),
{
    let whole = seq![t] + rest;
    assert forall|i: int|
        0 <= i < whole.len() - 1 implies (#[trigger] whole[i]) + MIN_PUBLISH_INTERVAL_MS <= whole[i
        + 1] by {
        if i == 0 {
            assert(whole[1] == rest.first());
        } else {
            assert(whole[i] == rest[i - 1]);
            assert(whole[i + 1] == rest[i]);
        }
    }
}

/// Minimum spacing holds however fast readings arrive: of the publish starts
/// the publisher accepts, consecutive ones are never closer than the configured
/// minimum interval, and none comes sooner than that interval after a start
/// already on record.
pub proof fn lemma_min_publish_spacing(p: Publisher, times: Seq<u64>)
    requires
        nondecreasing(times),
        match p.last_start {
            Some(t) => times.len() > 0 ==> times.first() >= t,
            None => true,
        },
    ensures
        spaced(accepted_starts(p, times)),
        match p.last_start {
            Some(t) => accepted_starts(p, times).len() > 0 ==> accepted_starts(p, times).first()
                >= t + MIN_PUBLISH_INTERVAL_MS,
            None => true,
        },
    decreases times.len(),
{
    if times.len() == 0 {
    } else {
        let now = times.first();
        let rest = times.drop_first();
        let p1 = spec_after_start(p, now);
        assert(nondecreasing(rest) && (rest.len() > 0 ==> rest.first() >= now)) by {
            assert(forall|i: int|
                0 <= i < rest.len() - 1 ==> (#[trigger] rest[i]) == times[i + 1] && rest[i + 1]
                    == times[i + 2]);
            if rest.len() > 0 {
                assert(rest.first() == times[1]);
            }
        }
        lemma_min_publish_spacing(p1, rest);
        let rest_accepted = accepted_starts(p1, rest);
        if spec_may_start(p, now) {
            lemma_spaced_cons(now, rest_accepted);
            assert(accepted_starts(p, times) == seq![now] + rest_accepted);
        } else {
            assert(accepted_starts(p, times) =~= rest_accepted);
        }
    }
}

/// Failure recovery always rebuilds: after a write or flush error, and after
/// a remote close or read error on the response, the handle is down, so the
/// next publish attempt must begin with a fresh connect — the aborted handle
/// is never reused.
pub proof fn lemma_abort_forces_fresh_connect(p: Publisher, outcome: ReadOutcome, now: u64)
    ensures
        spec_after_send(p, false).conn is Closed,
        outcome is RemoteClosed || outcome is ReadFailed ==> spec_after_response(
            p,
            outcome,
        ).conn is Closed,
        spec_after_start(spec_after_send(p, false), now).conn is Closed,
        outcome is RemoteClosed || outcome is ReadFailed ==> spec_after_start(
            spec_after_response(p, outcome),
            now,
        ).conn is Closed,
{
}

} // verus!
