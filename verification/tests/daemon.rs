//! Jobs and reporting tasks.

use dooraccess_rs::codec::result;
use dooraccess_rs::daemon::{
    hangup_failure, manual_unlock, ring_unlock, run_worker, settle_step, submit_job, worker_step,
    DelayStep, HangupJob, Job, PushTracker, WorkerStep,
};
use dooraccess_rs::orchestration::{worker_outcome, worker_unavailable_outcome};
use dooraccess_rs::unlock::{UnlockOutcome, WireKind};

fn unlock_job(n: u32) -> Job<u32> {
    Job::Unlock(manual_unlock(
        [0x06, 0x02, 0x00, 0x00],
        [0x06, 0x02, 0x11, 0x03],
        "172.16.106.201",
        18022,
        n,
    ))
}

fn hangup_job() -> Job<u32> {
    Job::Hangup(HangupJob {
        outdoor_bcd: [1, 2, 3, 4],
        monitor_bcd: [5, 6, 7, 8],
        outdoor_ip: "172.16.106.152".into(),
        outdoor_port: 18022,
    })
}

#[test]
fn worker_runs_unlock_and_replies() {
    match worker_step(unlock_job(7), false) {
        WorkerStep::Unlock(j) => {
            assert_eq!(j.reply, 7);
            assert_eq!(j.target_ip, "172.16.106.201");
            assert_eq!(j.per_attempt_timeout, None);
            assert_eq!(j.retry_interval, 1000);
        }
        other => panic!("{other:?}"),
    }
    let o = UnlockOutcome {
        result: result::OK,
        retries: 2,
        terminated_by_bye: false,
        wire_kind: None,
    };
    assert_eq!(worker_outcome(Some(o)), o);
}

#[test]
fn shutdown_sentinel_breaks_worker_with_live_clone() {
    let steps = run_worker(vec![unlock_job(1), Job::Shutdown, unlock_job(2)], true);
    assert_eq!(steps.len(), 1);
    assert!(matches!(&steps[0], WorkerStep::Unlock(j) if j.reply == 1));
}

#[test]
fn submit_after_worker_exit_returns_err_not_panic() {
    assert_eq!(submit_job(false), Err("worker queue closed"));
    assert_eq!(submit_job(true), Ok(()));
}

#[test]
fn worker_panic_unblocks_handler_via_reply_drop() {
    // No answer comes where the worker is gone.
    let o = worker_outcome(None);
    assert_eq!(o, worker_unavailable_outcome());
    assert_eq!(o.result, result::ERR);
    assert_eq!(o.wire_kind, Some(WireKind::Other));
}

#[test]
fn push_tracker_reclaims_finished_handles() {
    let mut tracker: PushTracker<u32> = PushTracker::new();
    for n in 0..20 {
        let finished = vec![true; tracker.len()];
        tracker.register(n, &finished);
        assert_eq!(tracker.len(), 1);
    }
    tracker.register(20, &[false]);
    assert_eq!(tracker.handles(), &[19, 20]);
    assert_eq!(tracker.join_all(), vec![19, 20]);
    assert!(tracker.is_empty());
}

#[test]
fn spawn_push_skips_when_shutdown_set() {
    assert_eq!(settle_step(true, 0, 500), DelayStep::Abandon);
    assert_eq!(settle_step(true, 600, 500), DelayStep::Abandon);
}

#[test]
fn settling_takes_as_long_as_asked_for() {
    assert_eq!(settle_step(false, 0, 500), DelayStep::Wait(20));
    assert_eq!(settle_step(false, 495, 500), DelayStep::Wait(5));
    assert_eq!(settle_step(false, 500, 500), DelayStep::Act);
}

#[test]
fn hangups_need_a_wire() {
    assert!(matches!(
        worker_step(hangup_job(), true),
        WorkerStep::Hangup(_)
    ));
    match worker_step(hangup_job(), false) {
        WorkerStep::Skip(l) => assert_eq!(
            l,
            "auto-hangup skipped (no hangup wire injected, -> 172.16.106.152)"
        ),
        other => panic!("{other:?}"),
    }
    assert_eq!(
        hangup_failure("1.2.3.4", "down"),
        "auto-hangup (req=708 -> 1.2.3.4): down"
    );
}

#[test]
fn a_ring_is_tried_in_quick_succession() {
    let j = ring_unlock([0; 4], [0; 4], "1.2.3.4", 1, ());
    assert_eq!(j.per_attempt_timeout, Some(800));
    assert_eq!(j.retry_interval, 200);
}
