//! Hook sinks, the dispatcher that holds them, and the retry policy of webhook delivery.

use std::path::PathBuf;
use vstd::prelude::*;

verus! {

/// `std::path::PathBuf`, carried through unchanged.
#[verifier::external_type_specification]
#[verifier::external_body]
pub struct ExPathBuf(PathBuf);

/// A sink that prints each event on standard output.
#[derive(Debug, Default, Clone, Copy)]
pub struct StdoutHookSink;

/// A sink that appends each event, as one JSON line, to a file.
#[derive(Debug)]
pub struct JsonlHookSink {
    path: PathBuf,
}

impl JsonlHookSink {
    /// The file the sink appends to.
    pub closed spec fn log_path(&self) -> PathBuf {
        self.path
    }

    /// The sink that appends to `path`.
    pub fn new(path: PathBuf) -> (s: Self)
        ensures
            s.log_path() == path,
    {
        JsonlHookSink { path }
    }

    /// The file the sink appends to.
    pub fn path(&self) -> (p: &PathBuf)
        ensures
            *p == self.log_path(),
    {
        &self.path
    }
}

/// The sinks every event goes to, in the order they were added.
#[derive(Debug, Clone)]
pub struct HookDispatcher<S> {
    sinks: Vec<S>,
}

impl<S> HookDispatcher<S> {
    /// The sinks, in the order they were added.
    pub closed spec fn sink_seq(&self) -> Seq<S> {
        self.sinks@
    }

    /// The dispatcher with no sink.
    pub fn new() -> (d: Self)
        ensures
            d.sink_seq() == Seq::<S>::empty(),
    {
        HookDispatcher { sinks: Vec::new() }
    }

    /// Adds a sink after those already there.
    pub fn add_sink(&mut self, sink: S)
        ensures
            final(self).sink_seq() == old(self).sink_seq().push(sink),
    {
        self.sinks.push(sink);
    }

    /// The sinks an event is delivered to, in delivery order.
    pub fn sinks(&self) -> (r: &[S])
        ensures
            r@ == self.sink_seq(),
    {
        self.sinks.as_slice()
    }
}

impl<S> Default for HookDispatcher<S> {
    fn default() -> (d: Self)
        ensures
            d.sink_seq() == Seq::<S>::empty(),
    {
        HookDispatcher::new()
    }
}

/// How many failed attempts a webhook delivery retries after; the next failure ends it.
pub const WEBHOOK_MAX_RETRIES: usize = 2;

/// The pause before a retry grows by this many milliseconds with each retry.
pub const WEBHOOK_BACKOFF_MS: u64 = 200;

/// What one attempt to post an event to a webhook came to.
#[derive(Debug, Clone, Copy, PartialEq, Eq, Structural)]
pub enum WebhookOutcome {
    /// The webhook answered with a success status.
    Delivered,
    /// The webhook answered with another status.
    Rejected { status: u16 },
    /// The request did not get an answer.
    Unreachable,
}

/// What a delivery does after an attempt.
#[derive(Debug, Clone, Copy, PartialEq, Eq, Structural)]
pub enum WebhookStep {
    /// The event was delivered.
    Done,
    /// Wait `delay_ms` milliseconds and try again; `retries` retries have then been made.
    Retry { retries: usize, delay_ms: u64 },
    /// The attempt failed and no retry is left: report its failure.
    GiveUp,
}

/// The step after an attempt with `outcome`, when `retries` retries were made before it.
pub open spec fn webhook_step(retries: nat, outcome: WebhookOutcome) -> WebhookStep {
    match outcome {
        WebhookOutcome::Delivered => WebhookStep::Done,
        _ => if retries >= WEBHOOK_MAX_RETRIES {
            WebhookStep::GiveUp
        } else {
            WebhookStep::Retry {
                retries: (retries + 1) as usize,
                delay_ms: (WEBHOOK_BACKOFF_MS * (retries + 1)) as u64,
            }
        },
    }
}

/// Decides what a webhook delivery does after an attempt: done on success; after a failure,
/// a retry with a growing pause while retries are left, and otherwise giving up.
pub fn webhook_next_step(retries: usize, outcome: WebhookOutcome) -> (r: WebhookStep)
    ensures
        r == webhook_step(retries as nat, outcome),
{
    match outcome {
        WebhookOutcome::Delivered => WebhookStep::Done,
        _ => {
            if retries >= WEBHOOK_MAX_RETRIES {
                WebhookStep::GiveUp
            } else {
                let next = retries + 1;
                WebhookStep::Retry { retries: next, delay_ms: WEBHOOK_BACKOFF_MS * (next as u64) }
            }
        },
    }
}

/// The attempts a delivery makes when its attempts come to `outcomes` in turn, starting
/// with `retries` retries made.
pub open spec fn webhook_attempts(outcomes: Seq<WebhookOutcome>, retries: nat) -> nat
    decreases outcomes.len(),
{
    if outcomes.len() == 0 {
        0
    } else {
        match webhook_step(retries, outcomes[0]) {
            WebhookStep::Retry { retries: next, .. } => 1 + webhook_attempts(
                outcomes.drop_first(),
                next as nat,
            ),
            _ => 1,
        }
    }
}

/// Whether a delivery whose attempts come to `outcomes` delivers the event.
pub open spec fn webhook_delivers(outcomes: Seq<WebhookOutcome>, retries: nat) -> bool
    decreases outcomes.len(),
{
    if outcomes.len() == 0 {
        false
    } else {
        match webhook_step(retries, outcomes[0]) {
            WebhookStep::Done => true,
            WebhookStep::Retry { retries: next, .. } => webhook_delivers(
                outcomes.drop_first(),
                next as nat,
            ),
            WebhookStep::GiveUp => false,
        }
    }
}

/// A webhook delivery makes at most three attempts, and it delivers the event exactly when
/// one of its first three attempts succeeds.
pub proof fn lemma_webhook_attempts_bounded(outcomes: Seq<WebhookOutcome>)
    ensures
        webhook_attempts(outcomes, 0) <= WEBHOOK_MAX_RETRIES + 1,
        webhook_delivers(outcomes, 0) <==> exists|i: int|
            0 <= i < outcomes.len() && i <= WEBHOOK_MAX_RETRIES && #[trigger] outcomes[i]
                == WebhookOutcome::Delivered,
{
    lemma_webhook_from(outcomes, 0);
}

proof fn lemma_webhook_from(outcomes: Seq<WebhookOutcome>, retries: nat)
    requires
        retries <= WEBHOOK_MAX_RETRIES,
    ensures
        webhook_attempts(outcomes, retries) <= WEBHOOK_MAX_RETRIES + 1 - retries,
        webhook_delivers(outcomes, retries) <==> exists|i: int|
            0 <= i < outcomes.len() && i <= WEBHOOK_MAX_RETRIES - retries
                && #[trigger] outcomes[i] == WebhookOutcome::Delivered,
    decreases outcomes.len(),
{
    if outcomes.len() > 0 {
        let rest = outcomes.drop_first();
        if outcomes[0] != WebhookOutcome::Delivered && retries < WEBHOOK_MAX_RETRIES {
            lemma_webhook_from(rest, retries + 1);
            if webhook_delivers(outcomes, retries) {
                let j = choose|j: int|
                    0 <= j < rest.len() && j <= WEBHOOK_MAX_RETRIES - (retries + 1)
                        && #[trigger] rest[j] == WebhookOutcome::Delivered;
                assert(outcomes[j + 1] == rest[j]);
            }
            if exists|i: int|
                0 <= i < outcomes.len() && i <= WEBHOOK_MAX_RETRIES - retries
                    && #[trigger] outcomes[i] == WebhookOutcome::Delivered {
                let i = choose|i: int|
                    0 <= i < outcomes.len() && i <= WEBHOOK_MAX_RETRIES - retries
                        && #[trigger] outcomes[i] == WebhookOutcome::Delivered;
                assert(i > 0);
                assert(rest[i - 1] == outcomes[i]);
            }
        } else if outcomes[0] != WebhookOutcome::Delivered {
            if exists|i: int|
                0 <= i < outcomes.len() && i <= WEBHOOK_MAX_RETRIES - retries
                    && #[trigger] outcomes[i] == WebhookOutcome::Delivered {
                let i = choose|i: int|
                    0 <= i < outcomes.len() && i <= WEBHOOK_MAX_RETRIES - retries
                        && #[trigger] outcomes[i] == WebhookOutcome::Delivered;
                assert(i == 0);
            }
        }
    }
}

} // verus!
