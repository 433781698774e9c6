use vstd::prelude::*;

verus! {

/// Attempts made for one publish before giving up.
pub const PUBLISH_ATTEMPTS: u32 = 5;
/// Wait between two publish attempts, in milliseconds.
pub const PUBLISH_RETRY_DELAY_MS: u64 = 1_000;

/// Result of one publish attempt.
#[derive(Debug, Clone, Copy, PartialEq, Eq)]
pub enum PublishOutcome {
    /// The client took the message.
    Delivered,
    /// The client refused the message.
    Failed,
    /// No live client was present.
    NoClient,
}

/// What the publisher does after an attempt.
#[derive(Debug, Clone, Copy, PartialEq, Eq)]
pub enum PublishStep {
    /// The message went out; stop.
    Done,
    /// Wait this many milliseconds, then attempt again.
    RetryAfter(u64),
    /// All attempts failed; log and stop.
    GiveUp,
}

/// Best-effort delivery of one message: up to `PUBLISH_ATTEMPTS` attempts,
/// `PUBLISH_RETRY_DELAY_MS` apart.
pub struct PublishRetry {
    attempts: u32,
    finished: Option<PublishStep>,
}

impl PublishRetry {
    /// Attempts made so far.
    pub closed spec fn attempts_made(&self) -> u32 {
        self.attempts
    }

    /// The last step, once the publisher has finished.
    pub closed spec fn final_step(&self) -> Option<PublishStep> {
        self.finished
    }

    /// The decision after an attempt with `outcome`, and the publisher after it.
    pub closed spec fn next(p: Self, outcome: PublishOutcome) -> (Self, PublishStep) {
        if let Some(s) = p.finished {
            (p, s)
        } else {
            let made = (p.attempts + 1) as u32;
            if outcome == PublishOutcome::Delivered {
                (PublishRetry { attempts: made, finished: Some(PublishStep::Done) }, PublishStep::Done)
            } else if made < PUBLISH_ATTEMPTS {
                (PublishRetry { attempts: made, finished: None }, PublishStep::RetryAfter(PUBLISH_RETRY_DELAY_MS))
            } else {
                (PublishRetry { attempts: made, finished: Some(PublishStep::GiveUp) }, PublishStep::GiveUp)
            }
        }
    }

    /// The decision after an attempt with `outcome`, stated over the public
    /// accessors: `n` is the publisher after it and `step` the answer. A
    /// finished publisher repeats its last step and does not change.
    /// Otherwise one more attempt is counted: a delivery finishes with
    /// `Done`; a failure asks for a retry `PUBLISH_RETRY_DELAY_MS` later while
    /// fewer than `PUBLISH_ATTEMPTS` attempts were made, and finishes with
    /// `GiveUp` at the last one.
    pub open spec fn transition(p: Self, n: Self, outcome: PublishOutcome, step: PublishStep) -> bool {
        if let Some(s) = p.final_step() {
            n == p && step == s
        } else {
            let made = p.attempts_made() + 1;
            &&& n.attempts_made() == made
            &&& if outcome == PublishOutcome::Delivered {
                step == PublishStep::Done && n.final_step() == Some(PublishStep::Done)
            } else if made < PUBLISH_ATTEMPTS {
                step == PublishStep::RetryAfter(PUBLISH_RETRY_DELAY_MS) && n.final_step() is None
            } else {
                step == PublishStep::GiveUp && n.final_step() == Some(PublishStep::GiveUp)
            }
        }
    }

    /// `next` is the decision that `transition` describes, for a publisher
    /// with attempts left.
    pub proof fn lemma_next_is_transition(p: Self, outcome: PublishOutcome)
        requires
            p.wf(),
        ensures
            Self::transition(p, Self::next(p, outcome).0, outcome, Self::next(p, outcome).1),
    {
    }

    /// A publisher that has made no attempt.
    pub fn new() -> (r: Self)
        ensures
            r.wf(),
            r.attempts_made() == 0,
            r.final_step() is None,
    {
        PublishRetry { attempts: 0, finished: None }
    }

    /// Attempts made so far.
    pub fn attempts(&self) -> (r: u32)
        ensures
            r == self.attempts_made(),
    {
        self.attempts
    }

    /// Until it has finished, the publisher has attempts left.
    pub closed spec fn wf(&self) -> bool {
        self.finished is None ==> self.attempts < PUBLISH_ATTEMPTS
    }

    /// Records the outcome of one attempt and says what to do next. Once the
    /// publisher has finished it keeps answering with its last step.
    pub fn record(&mut self, outcome: PublishOutcome) -> (step: PublishStep)
        requires
            old(self).wf(),
        ensures
            (*final(self), step) == Self::next(*old(self), outcome),
            Self::transition(*old(self), *final(self), outcome, step),
            final(self).wf(),
    {
        proof {
            Self::lemma_next_is_transition(*old(self), outcome);
        }
        if let Some(s) = self.finished {
            return s;
        }
        self.attempts = self.attempts + 1;
        let step = match outcome {
            PublishOutcome::Delivered => PublishStep::Done,
            _ => if self.attempts < PUBLISH_ATTEMPTS {
                PublishStep::RetryAfter(PUBLISH_RETRY_DELAY_MS)
            } else {
                PublishStep::GiveUp
            },
        };
        if !matches!(step, PublishStep::RetryAfter(_)) {
            self.finished = Some(step);
        }
        step
    }
}

impl PublishRetry {
    /// The publisher after attempts with the outcomes `outs`, in order.
    pub closed spec fn run(p: Self, outs: Seq<PublishOutcome>) -> Self
        decreases outs.len(),
    {
        if outs.len() == 0 {
            p
        } else {
            Self::next(Self::run(p, outs.drop_last()), outs.last()).0
        }
    }

    proof fn lemma_failing_prefix(p: Self, outs: Seq<PublishOutcome>, k: int)
        requires
            p.attempts_made() == 0,
            p.final_step() is None,
            0 <= k <= outs.len(),
            forall|j: int| 0 <= j < outs.len() ==> #[trigger] outs[j] != PublishOutcome::Delivered,
        ensures
            ({
                let r = Self::run(p, outs.take(k));
                &&& r.attempts_made() == if k < PUBLISH_ATTEMPTS { k } else { PUBLISH_ATTEMPTS as int }
                &&& r.final_step() == if k < PUBLISH_ATTEMPTS {
                    None
                } else {
                    Some(PublishStep::GiveUp)
                }
            }),
        decreases k,
    {
        if k > 0 {
            Self::lemma_failing_prefix(p, outs, k - 1);
            assert(outs.take(k).drop_last() =~= outs.take(k - 1));
            assert(outs.take(k).last() == outs[k - 1]);
        }
    }

    /// With every attempt failing, a fresh publisher asks for a retry
    /// `PUBLISH_RETRY_DELAY_MS` later after each of the first four attempts,
    /// gives up after the fifth, and makes no attempt after that: exactly
    /// `PUBLISH_ATTEMPTS` attempts, and no error for the caller.
    pub proof fn lemma_gives_up_after_five(p: Self, outs: Seq<PublishOutcome>)
        requires
            p.attempts_made() == 0,
            p.final_step() is None,
            forall|j: int| 0 <= j < outs.len() ==> #[trigger] outs[j] != PublishOutcome::Delivered,
        ensures
            forall|k: int|
                0 <= k < outs.len() ==> #[trigger] Self::next(Self::run(p, outs.take(k)), outs[k]).1
                    == if k + 1 < PUBLISH_ATTEMPTS {
                    PublishStep::RetryAfter(PUBLISH_RETRY_DELAY_MS)
                } else {
                    PublishStep::GiveUp
                },
            Self::run(p, outs).attempts_made() == if outs.len() < PUBLISH_ATTEMPTS {
                outs.len() as int
            } else {
                PUBLISH_ATTEMPTS as int
            },
    {
        assert forall|k: int| 0 <= k < outs.len() implies #[trigger] Self::next(
            Self::run(p, outs.take(k)),
            outs[k],
        ).1 == if k + 1 < PUBLISH_ATTEMPTS {
            PublishStep::RetryAfter(PUBLISH_RETRY_DELAY_MS)
        } else {
            PublishStep::GiveUp
        } by {
            Self::lemma_failing_prefix(p, outs, k);
        }
        Self::lemma_failing_prefix(p, outs, outs.len() as int);
        assert(outs.take(outs.len() as int) =~= outs);
    }
}

} // verus!
