//! Watching the registered endpoint and reviving the tunnel behind it.
pub mod doctor;
pub mod surgeon;

use vstd::prelude::*;

use self::doctor::Health;

verus! {

/// How a watch over the endpoint behaves.
pub struct WatchPlan {
    /// Revivals allowed before the watch gives up.
    pub retry_limit: u32,
    /// Pause after a healthy check.
    pub rest_secs: u64,
    /// Pause after a revival.
    pub revive_pause_secs: u64,
    /// Whether a revival starts a new tunnel after stopping the old one.
    pub restarts_tunnel: bool,
}

impl WatchPlan {
    /// The watch that keeps the tunnel alive: up to 30 revivals, each
    /// stopping the old tunnel and starting a new one, then 5 s for the
    /// configuration to spread; 30 s between healthy checks.
    pub fn ward() -> (plan: WatchPlan)
        ensures
            plan.retry_limit == 30,
            plan.rest_secs == 30,
            plan.revive_pause_secs == 5,
            plan.restarts_tunnel,
    {
        WatchPlan { retry_limit: 30, rest_secs: 30, revive_pause_secs: 5, restarts_tunnel: true }
    }

    /// The plain watch: up to 3 revivals that only stop the old tunnel, 4 s
    /// after each; 30 s between healthy checks.
    pub fn standalone() -> (plan: WatchPlan)
        ensures
            plan.retry_limit == 3,
            plan.rest_secs == 30,
            plan.revive_pause_secs == 4,
            !plan.restarts_tunnel,
    {
        WatchPlan { retry_limit: 3, rest_secs: 30, revive_pause_secs: 4, restarts_tunnel: false }
    }
}

/// What the watch does after a health check.
pub enum Watch {
    /// The endpoint is healthy: pause, then check again.
    Rest { pause_secs: u64 },
    /// The endpoint is dead: stop the old tunnel, start a new one when
    /// `restart`, pause, then check again with `retries` revivals made.
    Revive { retries: u32, restart: bool, pause_secs: u64 },
    /// The endpoint is dead and no revival is left: stop watching.
    Stop,
}

/// The step after a check that came back `healthy` or not, with `retries`
/// revivals made so far.
pub open spec fn observe_step_spec(plan: WatchPlan, retries: u32, healthy: bool) -> Watch {
    if healthy {
        Watch::Rest { pause_secs: plan.rest_secs }
    } else if retries >= plan.retry_limit {
        Watch::Stop
    } else {
        Watch::Revive {
            retries: (retries + 1) as u32,
            restart: plan.restarts_tunnel,
            pause_secs: plan.revive_pause_secs,
        }
    }
}

/// Decides what the watch does after a health check: rest when healthy;
/// when dead, stop once `retry_limit` revivals were made, else revive. The
/// revival count is never reset by a healthy check.
pub fn observe_step(plan: &WatchPlan, retries: u32, health: Health) -> (step: Watch)
    requires
        retries <= plan.retry_limit,
    ensures
        step == observe_step_spec(*plan, retries, health == Health::Healthy),
{
    match health {
        Health::Healthy => Watch::Rest { pause_secs: plan.rest_secs },
        Health::Dead => {
            if retries >= plan.retry_limit {
                Watch::Stop
            } else {
                Watch::Revive {
                    retries: retries + 1,
                    restart: plan.restarts_tunnel,
                    pause_secs: plan.revive_pause_secs,
                }
            }
        },
    }
}

/// Runs the watch from `retries` revivals on the check results `outcomes`
/// (`true` for healthy): the index of the check after which it stops, or
/// `None` if it is still watching when the results run out.
pub open spec fn run_watch(plan: WatchPlan, retries: u32, outcomes: Seq<bool>) -> Option<nat>
    decreases outcomes.len(),
{
    if outcomes.len() == 0 {
        None
    } else {
        match observe_step_spec(plan, retries, outcomes[0]) {
            Watch::Stop => Some(0),
            Watch::Rest { .. } => match run_watch(plan, retries, outcomes.drop_first()) {
                Some(i) => Some(i + 1),
                None => None,
            },
            Watch::Revive { retries: next, .. } => match run_watch(
                plan,
                next,
                outcomes.drop_first(),
            ) {
                Some(i) => Some(i + 1),
                None => None,
            },
        }
    }
}

/// The number of failed checks among `outcomes`.
pub open spec fn dead_count(outcomes: Seq<bool>) -> nat
    decreases outcomes.len(),
{
    if outcomes.len() == 0 {
        0
    } else {
        (if outcomes[0] {
            0nat
        } else {
            1nat
        }) + dead_count(outcomes.drop_first())
    }
}

proof fn lemma_run_watch_from(plan: WatchPlan, retries: u32, outcomes: Seq<bool>)
    requires
        retries <= plan.retry_limit,
    ensures
        run_watch(plan, retries, outcomes) is None <==> dead_count(outcomes) <= plan.retry_limit
            - retries,
        run_watch(plan, retries, outcomes) matches Some(i) ==> {
            &&& i < outcomes.len()
            &&& !outcomes[i as int]
            &&& dead_count(outcomes.take(i + 1int)) == plan.retry_limit - retries + 1
        },
    decreases outcomes.len(),
{
    if outcomes.len() > 0 {
        let rest = outcomes.drop_first();
        if !outcomes[0] && retries >= plan.retry_limit {
            let first = outcomes.take(1);
            assert(first.drop_first() =~= Seq::<bool>::empty());
            assert(first[0] == outcomes[0]);
            assert(dead_count(first.drop_first()) == 0);
            assert(dead_count(first) == 1);
        } else {
            let next: u32 = if outcomes[0] { retries } else { (retries + 1) as u32 };
            lemma_run_watch_from(plan, next, rest);
            if let Some(i) = run_watch(plan, next, rest) {
                let prefix = outcomes.take(i + 2int);
                assert(prefix.drop_first() =~= rest.take(i + 1int));
                assert(prefix[0] == outcomes[0]);
                assert(dead_count(prefix) == (if outcomes[0] { 0nat } else { 1nat }) + dead_count(
                    rest.take(i + 1int),
                ));
            }
        }
    }
}

/// The watch stops at the failed check that makes `retry_limit + 1` failed
/// checks in all, and only then: healthy checks in between do not reset
/// the count, and while no more than `retry_limit` checks have failed it
/// keeps watching.
pub proof fn law_watch_stops_after_limit(plan: WatchPlan, outcomes: Seq<bool>)
    ensures
        run_watch(plan, 0, outcomes) is None <==> dead_count(outcomes) <= plan.retry_limit,
        run_watch(plan, 0, outcomes) matches Some(i) ==> {
            &&& i < outcomes.len()
            &&& !outcomes[i as int]
            &&& dead_count(outcomes.take(i + 1int)) == plan.retry_limit + 1
        },
{
    lemma_run_watch_from(plan, 0, outcomes);
}

/// What each check leads to, for every revival count: a healthy check
/// rests for the plan's rest time; a dead check with revivals left revives
/// with one more revival, starts a new tunnel exactly when the plan says so
/// (whatever the count) and pauses for the plan's revival pause; a dead
/// check with none left stops.
pub proof fn law_observe_step_follows_plan(plan: WatchPlan, retries: u32)
    ensures
        observe_step_spec(plan, retries, true) == (Watch::Rest { pause_secs: plan.rest_secs }),
        retries < plan.retry_limit ==> observe_step_spec(plan, retries, false) == (Watch::Revive {
            retries: (retries + 1) as u32,
            restart: plan.restarts_tunnel,
            pause_secs: plan.revive_pause_secs,
        }),
        retries >= plan.retry_limit ==> observe_step_spec(plan, retries, false) == Watch::Stop,
{
}

/// Under the ward plan every revival, the first or any later one, stops the
/// old tunnel and starts a new one, and pauses 5 s.
pub proof fn law_ward_always_restarts(retries: u32)
    requires
        retries < 30,
    ensures
        observe_step_spec(
            WatchPlan { retry_limit: 30, rest_secs: 30, revive_pause_secs: 5, restarts_tunnel: true },
            retries,
            false,
        ) matches Watch::Revive { restart, pause_secs, retries: next } && restart && pause_secs == 5
            && next == retries + 1,
{
}

} // verus!
