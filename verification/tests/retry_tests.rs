use stark::doctor::{health_of_status, Health as StatusHealth};
use stark::hospital::doctor::{health_endpoint, health_of_probe, Health};
use stark::hospital::{observe_step, Watch, WatchPlan};
use stark::retry::{attempt_step, needs_fresh_token, poll_step, AttemptStep, PollStep};

#[test]
fn poll_stops_when_healthy() {
    assert!(matches!(poll_step(10, 3, 0, true), PollStep::Ready));
    assert!(matches!(poll_step(10, 3, 0, false), PollStep::CheckAgain { pause_secs: 3, retry: 1 }));
    assert!(matches!(poll_step(10, 3, 9, false), PollStep::GiveUp { pause_secs: 3 }));
}

#[test]
fn poll_loop_makes_at_most_limit_checks() {
    let mut retry = 0;
    let mut checks = 0;
    loop {
        checks += 1;
        match poll_step(3, 3, retry, false) {
            PollStep::Ready => panic!("never healthy"),
            PollStep::CheckAgain { retry: next, .. } => retry = next,
            PollStep::GiveUp { .. } => break,
        }
    }
    assert_eq!(checks, 3);
}

#[test]
fn attempts_give_up_after_max() {
    assert!(matches!(attempt_step(3, 5, 0, true), AttemptStep::Done));
    assert!(matches!(attempt_step(3, 5, 0, false), AttemptStep::Retry { pause_secs: 5, tries: 1 }));
    assert!(matches!(attempt_step(3, 5, 1, false), AttemptStep::Retry { pause_secs: 5, tries: 2 }));
    assert!(matches!(attempt_step(3, 5, 2, false), AttemptStep::Exhausted));
    assert!(!needs_fresh_token(0));
    assert!(needs_fresh_token(1));
}

#[test]
fn watch_counts_failures_across_healthy_checks() {
    let plan = WatchPlan::standalone();
    let outcomes = [false, true, false, true, true, false, false];
    let mut retries = 0;
    let mut stopped_at = None;
    for (i, healthy) in outcomes.iter().enumerate() {
        let health = if *healthy { Health::Healthy } else { Health::Dead };
        match observe_step(&plan, retries, health) {
            Watch::Rest { pause_secs } => assert_eq!(pause_secs, 30),
            Watch::Revive { retries: next, restart, pause_secs } => {
                assert!(!restart);
                assert_eq!(pause_secs, 4);
                retries = next;
            }
            Watch::Stop => {
                stopped_at = Some(i);
                break;
            }
        }
    }
    assert_eq!(stopped_at, Some(6));
}

#[test]
fn ward_plan_restarts() {
    let plan = WatchPlan::ward();
    assert_eq!(plan.retry_limit, 30);
    assert!(matches!(
        observe_step(&plan, 0, Health::Dead),
        Watch::Revive { retries: 1, restart: true, pause_secs: 5 }
    ));
    assert!(matches!(observe_step(&plan, 30, Health::Dead), Watch::Stop));
    assert!(matches!(observe_step(&plan, 30, Health::Healthy), Watch::Rest { pause_secs: 30 }));
}

#[test]
fn probe_health() {
    assert_eq!(health_of_probe(Some(200)), Health::Healthy);
    assert_eq!(health_of_probe(Some(204)), Health::Dead);
    assert_eq!(health_of_probe(Some(500)), Health::Dead);
    assert_eq!(health_of_probe(None), Health::Dead);
    assert!(Health::Healthy.is_healthy());
    assert!(!Health::Dead.is_healthy());
    assert_eq!(health_endpoint("https://x.io"), "https://x.io/health");
}

#[test]
fn status_health() {
    assert_eq!(health_of_status(200), StatusHealth::Healthy);
    assert_eq!(health_of_status(404), StatusHealth::Dead);
}
