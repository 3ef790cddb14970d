//! Decision logic of the long-lived broker session.
//!
//! The unverified edge owns the socket: it connects, subscribes, polls for
//! events and performs the waits.  Every decision — which topics to
//! subscribe to, what one inbound publish does to the stored state, whether
//! a failed connection attempt is retried, and that nothing is dispatched
//! once shutdown has been signalled — lives here, as verified functions
//! from plain values to plain values.
//!
//! Shutdown is cooperative and single-shot: after [`SessionLoop::signal_shutdown`]
//! the loop is inactive for good, and [`SessionLoop::process_message`]
//! starts no further dispatch — a message already dispatched is never
//! aborted mid-flight, since each dispatch runs to completion before the
//! next call.

use vstd::prelude::*;
use crate::dispatch::{spec_dispatch_post, DispatchError, DispatchOutcome, Dispatcher};
use crate::router::{route, spec_route};

verus! {

/// Delivery guarantee requested for a publish.
#[derive(Clone, Copy, Debug, PartialEq, Eq, Structural)]
pub enum QoS {
    AtMostOnce,
    AtLeastOnce,
    ExactlyOnce,
}

impl QoS {
    /// The protocol-level quality-of-service number.
    pub open spec fn spec_level(self) -> u8 {
        match self {
            QoS::AtMostOnce => 0,
            QoS::AtLeastOnce => 1,
            QoS::ExactlyOnce => 2,
        }
    }

    pub fn level(self) -> (l: u8)
        ensures
            l == self.spec_level(),
    {
        match self {
            QoS::AtMostOnce => 0,
            QoS::AtLeastOnce => 1,
            QoS::ExactlyOnce => 2,
        }
    }
}

/// The fixed set of topic filters the session subscribes to on startup: one
/// filter for each topic shape the router recognizes.
pub fn ingestion_topics() -> (v: Vec<&'static str>)
    ensures
        v@.len() == 3,
        v@[0]@ == "gs/+"@,
        v@[1]@ == "job/+"@,
        v@[2]@ == "satellite/+/telemetry"@,
{
    let mut v: Vec<&'static str> = Vec::new();
    v.push("gs/+");
    v.push("job/+");
    v.push("satellite/+/telemetry");
    v
}

/// What to do after a failed connection attempt.
#[derive(Clone, Copy, Debug, PartialEq, Eq, Structural)]
pub enum RetryDecision {
    /// Wait the fixed backoff, then try again.
    RetryAfter { delay_ms: u64 },
    /// Attempts are exhausted: surface a fatal startup error, loudly.
    GiveUp,
}

/// Bounded-retry policy for establishing the initial broker connection:
/// a fixed number of attempts with a fixed backoff, then fail loud.  Only
/// this startup failure is fatal; transport errors at runtime are logged
/// and polling continues.
#[derive(Clone, Copy, Debug, PartialEq, Eq, Structural)]
pub struct ConnectRetry {
    /// Failed attempts so far.
    pub attempts: u32,
    /// How many failed attempts are tolerated before giving up.
    pub max_attempts: u32,
    /// Fixed delay between attempts, in milliseconds.
    pub backoff_ms: u64,
}

impl ConnectRetry {
    pub fn new(max_attempts: u32, backoff_ms: u64) -> (p: ConnectRetry)
        ensures
            p == (ConnectRetry { attempts: 0, max_attempts, backoff_ms }),
    {
        ConnectRetry { attempts: 0, max_attempts, backoff_ms }
    }

    /// Records one failed attempt: retry with the fixed backoff while
    /// attempts remain, give up — exactly — once `max_attempts` have failed.
    pub fn on_failure(&mut self) -> (d: RetryDecision)
        ensures
            final(self).max_attempts == old(self).max_attempts,
            final(self).backoff_ms == old(self).backoff_ms,
            old(self).attempts < old(self).max_attempts ==> d == (RetryDecision::RetryAfter {
                delay_ms: old(self).backoff_ms,
            }) && final(self).attempts == old(self).attempts + 1,
            old(self).attempts >= old(self).max_attempts ==> d == RetryDecision::GiveUp
                && final(self).attempts == old(self).attempts,
    {
        if self.attempts < self.max_attempts {
            self.attempts = self.attempts + 1;
            RetryDecision::RetryAfter { delay_ms: self.backoff_ms }
        } else {
            RetryDecision::GiveUp
        }
    }
}

/// What one turn of the ingestion loop did.
#[derive(Debug, PartialEq, Eq)]
pub enum SessionStep {
    /// The loop has been shut down; the message was not dispatched.
    Skipped,
    /// The message was routed and dispatched, with this result.
    Dispatched(Result<DispatchOutcome, DispatchError>),
}

/// The ingestion loop's state: the dispatcher it feeds and whether the
/// one-time shutdown signal has been observed.
#[derive(Debug, PartialEq, Eq)]
pub struct SessionLoop {
    pub dispatcher: Dispatcher,
    /// True until the shutdown signal is observed, then false for good.
    pub active: bool,
}

impl SessionLoop {
    pub open spec fn wf(self) -> bool {
        self.dispatcher.wf()
    }

    pub fn new(dispatcher: Dispatcher) -> (s: SessionLoop)
        requires
            dispatcher.wf(),
        ensures
            s.wf(),
            s.active,
            s.dispatcher == dispatcher,
    {
        SessionLoop { dispatcher, active: true }
    }

    /// Observes the one-time shutdown signal.  From here on the loop is
    /// inactive for good and dispatches nothing further.
    pub fn signal_shutdown(&mut self)
        ensures
            !final(self).active,
            final(self).dispatcher == old(self).dispatcher,
    {
        self.active = false;
    }

    /// One turn of the ingestion loop for one inbound publish.
    ///
    /// While active, the message is routed and dispatched and the effect is
    /// exactly [`spec_dispatch_post`] over the parsed route.  Once shutdown
    /// has been signalled, no new dispatch starts: the state is left
    /// untouched and the message is skipped.  Either way the message is
    /// handled at most once, and a dispatch failure leaves the loop able to
    /// process the next message.
    pub fn process_message(&mut self, topic: &str, payload: &[u8]) -> (step: SessionStep)
        requires
            old(self).wf(),
        ensures
            final(self).wf(),
            final(self).active == old(self).active,
            !old(self).active ==> step == SessionStep::Skipped && *final(self) == *old(self),
            old(self).active ==> (step matches SessionStep::Dispatched(r) && spec_dispatch_post(
                old(self).dispatcher,
                spec_route(topic@),
                payload@,
                final(self).dispatcher,
                r,
            )),
    {
        if !self.active {
            return SessionStep::Skipped;
        }
        let parsed = route(topic);
        let r = self.dispatcher.dispatch(parsed, payload);
        SessionStep::Dispatched(r)
    }
}

/// Relies on `uuid::Uuid::new_v4` and the `Display` impl of `uuid::Uuid`:
/// a fresh random version-4 uuid rendered in its hyphenated text form,
/// which is always 36 characters.  Of a random value nothing more can be
/// promised.
#[verifier::external_body]
fn fresh_uuid_string() -> (r: String)
    ensures
        r@.len() == 36,
{
    format!("{}", uuid::Uuid::new_v4())
}

/// A broker client identity for this process instance: a fixed prefix
/// naming the service, followed by a freshly drawn random uuid, so that two
/// instances never collide on the broker.
pub fn make_client_id() -> (r: String)
    ensures
        r@.len() == 47,
        r@.subrange(0, 11) == "rustar-api-"@,
{
    let mut id = String::from_str("rustar-api-");
    let suffix = fresh_uuid_string();
    id.append(suffix.as_str());
    proof {
        reveal_strlit("rustar-api-");
        assert(id@.subrange(0, 11) =~= "rustar-api-"@);
    }
    id
}

} // verus!
