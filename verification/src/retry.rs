use vstd::prelude::*;
use vstd::arithmetic::power2::pow2;
use vstd::arithmetic::power2::lemma_pow2_strictly_increases;
use vstd::bits::lemma_u64_pow2_no_overflow;
use vstd::bits::lemma_u64_shl_is_mul;
use crate::error::DownloadError;
use crate::error::ErrorView;

verus! {

/// The most retries a policy can be made with: the pause before the last of
/// them, in seconds, still fits in 64 bits.
pub const MAX_RETRIES: usize = 64;

/// How long to pause after the failure of the attempt numbered `attempt`
/// (the first attempt is number 0), in seconds: the pauses double.
pub open spec fn backoff(attempt: nat) -> nat {
    pow2(attempt)
}

/// What to do about a failed attempt.
#[derive(Clone, Copy, Debug, PartialEq, Eq, Structural)]
pub enum RetryDecision {
    /// Pause for `delay_secs` seconds, then make another attempt.
    RetryAfter { delay_secs: u64 },
    /// No attempt is left: all `attempts` of them failed.
    GiveUp { attempts: usize },
}

/// The mathematical value of a [`RetryDecision`].
pub enum DecisionView {
    RetryAfter { delay_secs: nat },
    GiveUp { attempts: nat },
}

impl View for RetryDecision {
    type V = DecisionView;

    open spec fn view(&self) -> DecisionView {
        match *self {
            RetryDecision::RetryAfter { delay_secs } => DecisionView::RetryAfter {
                delay_secs: delay_secs as nat,
            },
            RetryDecision::GiveUp { attempts } => DecisionView::GiveUp { attempts: attempts as nat },
        }
    }
}

/// How one attempt to fetch a segment ends for the retrying fetcher.
#[derive(Debug)]
pub enum AttemptStep {
    /// The segment is fetched: these are its bytes.
    Done { bytes: Vec<u8> },
    /// The attempt failed and a retry is left: pause for `delay_secs`
    /// seconds, then make another attempt.
    RetryAfter { delay_secs: u64 },
    /// The segment cannot be fetched: `error` ends its task.
    Failed { error: DownloadError },
}

/// The mathematical value of an [`AttemptStep`].
pub enum StepView {
    Done { bytes: Seq<u8> },
    RetryAfter { delay_secs: nat },
    Failed { error: ErrorView },
}

impl View for AttemptStep {
    type V = StepView;

    open spec fn view(&self) -> StepView {
        match *self {
            AttemptStep::Done { bytes } => StepView::Done { bytes: bytes@ },
            AttemptStep::RetryAfter { delay_secs } => StepView::RetryAfter {
                delay_secs: delay_secs as nat,
            },
            AttemptStep::Failed { error } => StepView::Failed { error: error@ },
        }
    }
}

/// The outcome of one attempt, as the retrying fetcher sees it: the bytes of
/// the segment or the error of the attempt.
pub open spec fn outcome_view(outcome: Result<Vec<u8>, DownloadError>) -> Result<Seq<u8>, ErrorView> {
    match outcome {
        Ok(bytes) => Ok(bytes@),
        Err(error) => Err(error@),
    }
}

/// The mathematical value of a [`RetryPolicy`]: how many retries it allows
/// and how many attempts have failed so far.
pub struct RetryView {
    pub retries: nat,
    pub failures: nat,
}

impl RetryView {
    /// A policy of `retries` retries before any attempt was made.
    pub open spec fn start(retries: nat) -> Self {
        RetryView { retries, failures: 0 }
    }

    /// Every attempt has failed, the first one and each retry.
    pub open spec fn is_exhausted(self) -> bool {
        self.failures > self.retries
    }

    /// The answer to one more failed attempt.
    pub open spec fn decision(self) -> DecisionView {
        if self.failures < self.retries {
            DecisionView::RetryAfter { delay_secs: backoff(self.failures) }
        } else {
            DecisionView::GiveUp { attempts: self.retries + 1 }
        }
    }

    /// The policy after one more failed attempt.
    pub open spec fn after_failure(self) -> Self {
        if self.is_exhausted() {
            self
        } else {
            RetryView { failures: self.failures + 1, ..self }
        }
    }

    /// What follows from the outcome of one attempt to fetch the segment
    /// at `index`. Success ends the fetch with the bytes. A failed attempt
    /// is answered by a pause while a retry is left, and by
    /// `FetchExhausted` with the number of attempts and the last cause when
    /// none is. Any other error is handed on as it is.
    pub open spec fn step(self, index: nat, outcome: Result<Seq<u8>, ErrorView>) -> StepView {
        match outcome {
            Ok(bytes) => StepView::Done { bytes },
            Err(ErrorView::Fetch { cause }) => match self.decision() {
                DecisionView::RetryAfter { delay_secs } => StepView::RetryAfter { delay_secs },
                DecisionView::GiveUp { attempts } => StepView::Failed {
                    error: ErrorView::FetchExhausted { index, attempts, cause },
                },
            },
            Err(error) => StepView::Failed { error },
        }
    }

    /// The policy after the outcome of one attempt: only a failed attempt
    /// counts.
    pub open spec fn after_attempt(self, outcome: Result<Seq<u8>, ErrorView>) -> Self {
        if outcome matches Err(ErrorView::Fetch { .. }) {
            self.after_failure()
        } else {
            self
        }
    }

    /// How the fetch of the segment at `index` is resolved by the outcomes
    /// of its attempts, taken in order: by the first outcome that is not
    /// answered by a pause. `None` while every outcome was answered by one.
    pub open spec fn resolve(self, index: nat, outcomes: Seq<Result<Seq<u8>, ErrorView>>) -> Option<
        StepView,
    >
        decreases outcomes.len(),
    {
        if outcomes.len() == 0 {
            None
        } else {
            match self.step(index, outcomes[0]) {
                StepView::RetryAfter { .. } => self.after_attempt(outcomes[0]).resolve(
                    index,
                    outcomes.drop_first(),
                ),
                step => Some(step),
            }
        }
    }

    /// The policy after `n` more failed attempts.
    pub open spec fn after_failures(self, n: nat) -> Self
        decreases n,
    {
        if n == 0 {
            self
        } else {
            self.after_failures((n - 1) as nat).after_failure()
        }
    }
}

/// The pause that follows a failed attempt.
pub fn backoff_delay(attempt: usize) -> (delay_secs: u64)
    requires
        attempt < MAX_RETRIES,
    ensures
        delay_secs == backoff(attempt as nat),
{
    let shift: u64 = attempt as u64;
    proof {
        lemma_u64_pow2_no_overflow(attempt as nat);
        lemma_u64_shl_is_mul(1u64, shift);
    }
    1u64 << shift
}

/// The retries of one segment: it counts the failed attempts and decides,
/// after each, between a pause and giving up.
#[derive(Debug)]
pub struct RetryPolicy {
    retries: usize,
    failures: usize,
}

impl View for RetryPolicy {
    type V = RetryView;

    closed spec fn view(&self) -> RetryView {
        RetryView { retries: self.retries as nat, failures: self.failures as nat }
    }
}

impl RetryPolicy {
    /// The counters are in range.
    pub closed spec fn wf(&self) -> bool {
        self.retries <= MAX_RETRIES && self.failures <= self.retries + 1
    }

    /// A policy that allows `retries` retries after the first attempt.
    pub fn new(retries: usize) -> (policy: Self)
        requires
            retries <= MAX_RETRIES,
        ensures
            policy.wf(),
            policy@ == RetryView::start(retries as nat),
    {
        RetryPolicy { retries, failures: 0 }
    }

    /// Records that an attempt failed and decides what follows: a pause, as
    /// long as a retry is left, else the end. A failure that is reported
    /// after the end is answered like the last one.
    pub fn on_failure(&mut self) -> (decision: RetryDecision)
        requires
            old(self).wf(),
        ensures
            final(self).wf(),
            decision@ == old(self)@.decision(),
            final(self)@ == old(self)@.after_failure(),
    {
        if self.failures < self.retries {
            let delay_secs = backoff_delay(self.failures);
            self.failures = self.failures + 1;
            RetryDecision::RetryAfter { delay_secs }
        } else {
            if self.failures == self.retries {
                self.failures = self.failures + 1;
            }
            RetryDecision::GiveUp { attempts: self.retries + 1 }
        }
    }

    /// Takes the outcome of one attempt to fetch the segment at `index`
    /// and decides what follows. The fetch is resolved by `Done` and by
    /// `Failed` only, never by a failure that can be retried.
    pub fn on_attempt(&mut self, index: usize, outcome: Result<Vec<u8>, DownloadError>) -> (step:
        AttemptStep)
        requires
            old(self).wf(),
        ensures
            final(self).wf(),
            step@ == old(self)@.step(index as nat, outcome_view(outcome)),
            final(self)@ == old(self)@.after_attempt(outcome_view(outcome)),
    {
        match outcome {
            Ok(bytes) => AttemptStep::Done { bytes },
            Err(DownloadError::Fetch { cause }) => match self.on_failure() {
                RetryDecision::RetryAfter { delay_secs } => AttemptStep::RetryAfter { delay_secs },
                RetryDecision::GiveUp { attempts } => AttemptStep::Failed {
                    error: DownloadError::FetchExhausted { index, attempts, cause },
                },
            },
            Err(error) => AttemptStep::Failed { error },
        }
    }

    /// How many attempts have failed.
    pub fn failures(&self) -> (n: usize)
        ensures
            n == self@.failures,
    {
        self.failures
    }

    /// Whether every attempt has failed.
    pub fn is_exhausted(&self) -> (exhausted: bool)
        ensures
            exhausted == self@.is_exhausted(),
    {
        self.failures > self.retries
    }
}

/// The pauses grow strictly from one failed attempt to the next.
pub proof fn lemma_backoff_strictly_increases(earlier: nat, later: nat)
    requires
        earlier < later,
    ensures
        backoff(earlier) < backoff(later),
{
    lemma_pow2_strictly_increases(earlier, later);
}

/// The bound on retries: of a segment whose every attempt fails, the
/// attempt numbered `k` is answered by the pause `backoff(k)` as long as
/// `k < retries`, and the attempt numbered `retries` by giving up. So
/// exactly `retries + 1` attempts are made, and no more after them.
pub proof fn lemma_retry_bound(retries: nat, k: nat)
    ensures
        RetryView::start(retries).after_failures(k).retries == retries,
        k <= retries ==> RetryView::start(retries).after_failures(k).failures == k,
        k < retries ==> RetryView::start(retries).after_failures(k).decision()
            == (DecisionView::RetryAfter { delay_secs: backoff(k) }),
        k == retries ==> RetryView::start(retries).after_failures(k).decision()
            == (DecisionView::GiveUp { attempts: retries + 1 }),
        k > retries ==> RetryView::start(retries).after_failures(k).is_exhausted(),
        k > retries ==> RetryView::start(retries).after_failures(k).failures == retries + 1,
    decreases k,
{
    if k > 0 {
        lemma_retry_bound(retries, (k - 1) as nat);
    }
}

/// Attempts that fail with the given causes, one after the other.
pub open spec fn failed_attempts(causes: Seq<Seq<char>>) -> Seq<Result<Seq<u8>, ErrorView>> {
    causes.map_values(|cause: Seq<char>| Err::<Seq<u8>, ErrorView>(ErrorView::Fetch { cause }))
}

proof fn lemma_resolve_after_failures(
    state: RetryView,
    index: nat,
    causes: Seq<Seq<char>>,
    rest: Seq<Result<Seq<u8>, ErrorView>>,
)
    requires
        state.failures + causes.len() <= state.retries,
    ensures
        state.resolve(index, failed_attempts(causes) + rest) == state.after_failures(
            causes.len(),
        ).resolve(index, rest),
        state.after_failures(causes.len()).failures == state.failures + causes.len(),
        state.after_failures(causes.len()).retries == state.retries,
    decreases causes.len(),
{
    if causes.len() == 0 {
        assert(failed_attempts(causes) + rest =~= rest);
    } else {
        let shorter = causes.drop_last();
        let last = Err::<Seq<u8>, ErrorView>(ErrorView::Fetch { cause: causes.last() });
        assert(failed_attempts(causes) + rest =~= failed_attempts(shorter) + (seq![last] + rest));
        lemma_resolve_after_failures(state, index, shorter, seq![last] + rest);
        assert((seq![last] + rest).drop_first() =~= rest);
        assert((seq![last] + rest)[0] == last);
    }
}

/// Failures that are retried do not show in the result: a segment whose
/// attempts fail no more often than there are retries, and then succeed, is
/// resolved with the bytes of the attempt that succeeded, as if its first
/// attempt had.
pub proof fn lemma_transient_failures_do_not_show(
    retries: nat,
    index: nat,
    causes: Seq<Seq<char>>,
    bytes: Seq<u8>,
)
    requires
        causes.len() <= retries,
    ensures
        RetryView::start(retries).resolve(
            index,
            failed_attempts(causes).push(Ok::<Seq<u8>, ErrorView>(bytes)),
        ) == Some(StepView::Done { bytes }),
        RetryView::start(retries).resolve(index, seq![Ok::<Seq<u8>, ErrorView>(bytes)]) == Some(
            StepView::Done { bytes },
        ),
{
    let success = seq![Ok::<Seq<u8>, ErrorView>(bytes)];
    lemma_resolve_after_failures(RetryView::start(retries), index, causes, success);
    assert(failed_attempts(causes).push(Ok::<Seq<u8>, ErrorView>(bytes)) =~= failed_attempts(
        causes,
    ) + success);
    assert(success[0] == Ok::<Seq<u8>, ErrorView>(bytes));
}

/// A segment whose every attempt fails is given up after exactly
/// `retries + 1` attempts: so many failures resolve its fetch with
/// `FetchExhausted`, which names the segment, the number of attempts and
/// the cause of the last one, and no fewer failures resolve it at all.
pub proof fn lemma_exhausted_after_all_attempts(retries: nat, index: nat, causes: Seq<Seq<char>>)
    ensures
        causes.len() <= retries ==> RetryView::start(retries).resolve(
            index,
            failed_attempts(causes),
        ) is None,
        causes.len() == retries + 1 ==> RetryView::start(retries).resolve(
            index,
            failed_attempts(causes),
        ) == Some(
            StepView::Failed {
                error: ErrorView::FetchExhausted {
                    index,
                    attempts: retries + 1,
                    cause: causes.last(),
                },
            },
        ),
{
    let start = RetryView::start(retries);
    if causes.len() <= retries {
        let none = Seq::<Result<Seq<u8>, ErrorView>>::empty();
        lemma_resolve_after_failures(start, index, causes, none);
        assert(failed_attempts(causes) + none =~= failed_attempts(causes));
    } else if causes.len() == retries + 1 {
        let earlier = causes.drop_last();
        let last = seq![Err::<Seq<u8>, ErrorView>(ErrorView::Fetch { cause: causes.last() })];
        lemma_resolve_after_failures(start, index, earlier, last);
        assert(failed_attempts(causes) =~= failed_attempts(earlier) + last);
        assert(last[0] == Err::<Seq<u8>, ErrorView>(ErrorView::Fetch { cause: causes.last() }));
    }
}

} // verus!
