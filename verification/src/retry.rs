//! The decisions of the loops that retry an outside operation: polling a
//! health check until it passes, and repeating a request until it succeeds.
use vstd::prelude::*;

verus! {

/// What to do after a health check while waiting for a service to come up.
pub enum PollStep {
    /// The check passed: the service is up.
    Ready,
    /// The check failed: pause, then check again with the failure count.
    CheckAgain { pause_secs: u64, retry: u32 },
    /// The check failed for the last allowed time: pause, then give up.
    GiveUp { pause_secs: u64 },
}

/// The step after the check made with `retry` failures behind it, out of
/// `limit` checks allowed, that came back `healthy` or not.
pub open spec fn poll_step_spec(limit: u32, pause_secs: u64, retry: u32, healthy: bool) -> PollStep {
    if healthy {
        PollStep::Ready
    } else if retry + 1 < limit {
        PollStep::CheckAgain { pause_secs, retry: (retry + 1) as u32 }
    } else {
        PollStep::GiveUp { pause_secs }
    }
}

/// Decides what follows a health check: stop when it passed; otherwise
/// pause and check again while fewer than `limit` checks were made, else
/// pause and give up.
pub fn poll_step(limit: u32, pause_secs: u64, retry: u32, healthy: bool) -> (step: PollStep)
    requires
        retry < limit,
    ensures
        step == poll_step_spec(limit, pause_secs, retry, healthy),
{
    if healthy {
        PollStep::Ready
    } else if retry + 1 < limit {
        PollStep::CheckAgain { pause_secs, retry: retry + 1 }
    } else {
        PollStep::GiveUp { pause_secs }
    }
}

/// Runs the polling loop from `retry` failures on the check results
/// `outcomes`: `Some((up, checks))` once it stops, with whether the service
/// came up and how many checks were made; `None` if the results run out
/// first.
pub open spec fn run_poll(limit: u32, retry: u32, outcomes: Seq<bool>) -> Option<(bool, nat)>
    decreases outcomes.len(),
{
    if outcomes.len() == 0 || retry >= limit {
        None
    } else {
        match poll_step_spec(limit, 0, retry, outcomes[0]) {
            PollStep::Ready => Some((true, 1)),
            PollStep::GiveUp { .. } => Some((false, 1)),
            PollStep::CheckAgain { retry: next, .. } => match run_poll(
                limit,
                next,
                outcomes.drop_first(),
            ) {
                Some((up, checks)) => Some((up, checks + 1)),
                None => None,
            },
        }
    }
}

/// The index of the first passing check among the first `n`, or `n`.
pub open spec fn first_true(outcomes: Seq<bool>, n: nat) -> nat
    decreases n,
{
    if n == 0 {
        0
    } else if first_true(outcomes, (n - 1) as nat) < n - 1 {
        first_true(outcomes, (n - 1) as nat)
    } else if outcomes[n - 1] {
        (n - 1) as nat
    } else {
        n
    }
}

/// `first_true` is the first passing check, or `n` when none passed.
pub proof fn lemma_first_true(outcomes: Seq<bool>, n: nat)
    requires
        n <= outcomes.len(),
    ensures
        first_true(outcomes, n) <= n,
        forall|i: int| 0 <= i < first_true(outcomes, n) ==> !outcomes[i],
        first_true(outcomes, n) < n ==> outcomes[first_true(outcomes, n) as int],
    decreases n,
{
    if n > 0 {
        lemma_first_true(outcomes, (n - 1) as nat);
    }
}

/// Shifting the results by one moves the first passing check by one.
proof fn lemma_first_true_shift(outcomes: Seq<bool>, n: nat)
    requires
        1 <= n <= outcomes.len(),
        !outcomes[0],
    ensures
        first_true(outcomes, n) == first_true(outcomes.drop_first(), (n - 1) as nat) + 1,
    decreases n,
{
    lemma_first_true(outcomes, n);
    lemma_first_true(outcomes.drop_first(), (n - 1) as nat);
    if n > 1 {
        lemma_first_true_shift(outcomes, (n - 1) as nat);
    }
}

proof fn lemma_run_poll_from(limit: u32, retry: u32, outcomes: Seq<bool>)
    requires
        retry < limit,
        outcomes.len() >= limit - retry,
    ensures
        run_poll(limit, retry, outcomes) == Some(
            (
                first_true(outcomes, (limit - retry) as nat) < limit - retry,
                if first_true(outcomes, (limit - retry) as nat) < limit - retry {
                    first_true(outcomes, (limit - retry) as nat) + 1
                } else {
                    (limit - retry) as nat
                },
            ),
        ),
    decreases limit - retry,
{
    let n = (limit - retry) as nat;
    lemma_first_true(outcomes, n);
    if outcomes[0] {
        assert(first_true(outcomes, 1) == 0);
        lemma_first_true_prefix(outcomes, 1, n);
    } else if retry + 1 < limit {
        lemma_run_poll_from(limit, (retry + 1) as u32, outcomes.drop_first());
        lemma_first_true_shift(outcomes, n);
    } else {
        assert(n == 1);
        assert(first_true(outcomes, 1) == 1);
    }
}

/// Once a passing check is found within the first `m`, looking further
/// finds the same one.
proof fn lemma_first_true_prefix(outcomes: Seq<bool>, m: nat, n: nat)
    requires
        m <= n <= outcomes.len(),
        first_true(outcomes, m) < m,
    ensures
        first_true(outcomes, n) == first_true(outcomes, m),
    decreases n - m,
{
    if n > m {
        lemma_first_true_prefix(outcomes, m, (n - 1) as nat);
    }
}

/// A polling loop allowed `limit` checks stops within them: the service
/// is reported up exactly when one of the first `limit` checks passed, and
/// the checks made are those up to the first passing one, or all `limit`.
pub proof fn law_poll_stops_within_limit(limit: u32, outcomes: Seq<bool>)
    requires
        limit > 0,
        outcomes.len() >= limit,
    ensures
        run_poll(limit, 0, outcomes) matches Some((up, checks)) && {
            &&& up == (exists|i: int| 0 <= i < limit && outcomes[i])
            &&& checks <= limit
            &&& forall|i: int| 0 <= i < checks - 1 ==> !outcomes[i]
            &&& up ==> outcomes[checks - 1]
            &&& !up ==> checks == limit
        },
{
    lemma_run_poll_from(limit, 0, outcomes);
    lemma_first_true(outcomes, limit as nat);
    let f = first_true(outcomes, limit as nat);
    if f < limit {
        assert(outcomes[f as int]);
    }
}

/// What to do after an attempt at a request that is retried a few times.
pub enum AttemptStep {
    /// The attempt succeeded.
    Done,
    /// The attempt failed: pause, then try again with a fresh token.
    Retry { pause_secs: u64, tries: u32 },
    /// The last allowed attempt failed.
    Exhausted,
}

/// The step after the attempt made with `tries` failures behind it.
pub open spec fn attempt_step_spec(max: u32, pause_secs: u64, tries: u32, succeeded: bool) -> AttemptStep {
    if succeeded {
        AttemptStep::Done
    } else if tries + 1 >= max {
        AttemptStep::Exhausted
    } else {
        AttemptStep::Retry { pause_secs, tries: (tries + 1) as u32 }
    }
}

/// Whether the attempt made with `tries` failures behind it must ask for a
/// fresh token: every attempt but the first does.
pub fn needs_fresh_token(tries: u32) -> (fresh: bool)
    ensures
        fresh == (tries > 0),
{
    tries > 0
}

/// Decides what follows an attempt: stop on success; after a failure, give
/// up when `max` attempts were made, else pause and try again.
pub fn attempt_step(max: u32, pause_secs: u64, tries: u32, succeeded: bool) -> (step: AttemptStep)
    requires
        tries < max,
    ensures
        step == attempt_step_spec(max, pause_secs, tries, succeeded),
{
    if succeeded {
        AttemptStep::Done
    } else if tries + 1 >= max {
        AttemptStep::Exhausted
    } else {
        AttemptStep::Retry { pause_secs, tries: tries + 1 }
    }
}

/// Runs the request loop from `tries` failures on the attempt results
/// `outcomes`: `Some((succeeded, attempts))` once it stops, `None` if the
/// results run out first.
pub open spec fn run_attempts(max: u32, tries: u32, outcomes: Seq<bool>) -> Option<(bool, nat)>
    decreases outcomes.len(),
{
    if outcomes.len() == 0 || tries >= max {
        None
    } else {
        match attempt_step_spec(max, 0, tries, outcomes[0]) {
            AttemptStep::Done => Some((true, 1)),
            AttemptStep::Exhausted => Some((false, 1)),
            AttemptStep::Retry { tries: next, .. } => match run_attempts(
                max,
                next,
                outcomes.drop_first(),
            ) {
                Some((ok, attempts)) => Some((ok, attempts + 1)),
                None => None,
            },
        }
    }
}

proof fn lemma_run_attempts_from(max: u32, tries: u32, outcomes: Seq<bool>)
    requires
        tries < max,
        outcomes.len() >= max - tries,
    ensures
        run_attempts(max, tries, outcomes) == Some(
            (
                first_true(outcomes, (max - tries) as nat) < max - tries,
                if first_true(outcomes, (max - tries) as nat) < max - tries {
                    first_true(outcomes, (max - tries) as nat) + 1
                } else {
                    (max - tries) as nat
                },
            ),
        ),
    decreases max - tries,
{
    let n = (max - tries) as nat;
    lemma_first_true(outcomes, n);
    if outcomes[0] {
        assert(first_true(outcomes, 1) == 0);
        lemma_first_true_prefix(outcomes, 1, n);
    } else if tries + 1 < max {
        lemma_run_attempts_from(max, (tries + 1) as u32, outcomes.drop_first());
        lemma_first_true_shift(outcomes, n);
    } else {
        assert(n == 1);
        assert(first_true(outcomes, 1) == 1);
    }
}

/// A request loop allowed `max` attempts makes at most `max` of them: it
/// succeeds exactly when one of the first `max` attempts succeeds, makes
/// the attempts up to the first success or all `max`, and asks for a fresh
/// token on every attempt but the first
/// (`needs_fresh_token`).
pub proof fn law_attempts_within_limit(max: u32, outcomes: Seq<bool>)
    requires
        max > 0,
        outcomes.len() >= max,
    ensures
        run_attempts(max, 0, outcomes) matches Some((ok, attempts)) && {
            &&& ok == (exists|i: int| 0 <= i < max && outcomes[i])
            &&& 1 <= attempts <= max
            &&& forall|i: int| 0 <= i < attempts - 1 ==> !outcomes[i]
            &&& ok ==> outcomes[attempts - 1]
            &&& !ok ==> attempts == max
        },
{
    lemma_run_attempts_from(max, 0, outcomes);
    lemma_first_true(outcomes, max as nat);
    let f = first_true(outcomes, max as nat);
    if f < max {
        assert(outcomes[f as int]);
    }
}

/// Every failed check pauses for exactly the pause given, whatever the
/// failure count: it checks again with one more failure while fewer than
/// `limit` checks were made, else gives up; a passed check is ready.
pub proof fn law_poll_pause_is_fixed(limit: u32, pause_secs: u64, retry: u32)
    requires
        retry < limit,
    ensures
        poll_step_spec(limit, pause_secs, retry, true) == PollStep::Ready,
        retry + 1 < limit ==> poll_step_spec(limit, pause_secs, retry, false) == (
        PollStep::CheckAgain { pause_secs: pause_secs, retry: (retry + 1) as u32 }),
        retry + 1 >= limit ==> poll_step_spec(limit, pause_secs, retry, false) == (
        PollStep::GiveUp { pause_secs: pause_secs }),
{
}

/// Every failed attempt before the last pauses for exactly the pause given,
/// whatever the attempt count, and retries with one more failure.
pub proof fn law_attempt_pause_is_fixed(max: u32, pause_secs: u64, tries: u32)
    requires
        tries < max,
    ensures
        attempt_step_spec(max, pause_secs, tries, true) == AttemptStep::Done,
        tries + 1 < max ==> attempt_step_spec(max, pause_secs, tries, false) == (
        AttemptStep::Retry { pause_secs: pause_secs, tries: (tries + 1) as u32 }),
        tries + 1 >= max ==> attempt_step_spec(max, pause_secs, tries, false)
            == AttemptStep::Exhausted,
{
}

} // verus!
