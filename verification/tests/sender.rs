//! Attempts to unlock.

use dooraccess_rs::codec::result;
use dooraccess_rs::control::endpoints::classify_wire_kind;
use dooraccess_rs::sender::{
    after_exchange, map_wire_kind, op_timeout, AttemptOutcome, Exchange, MockSender, Sender,
    SenderError, UnlockStage, WireFailure,
};
use dooraccess_rs::unlock::WireKind;

#[test]
fn try_once_second_step_bounded_by_remaining_cap() {
    let cap = 5_000;
    assert_eq!(op_timeout(cap, Some(2_000)), 2_000);
    assert_eq!(
        after_exchange(UnlockStage::UnlockA, Exchange::Answered { valid: true }),
        None
    );
    assert_eq!(op_timeout(cap, Some(400)), 400);
    assert_eq!(
        after_exchange(UnlockStage::UnlockB, Exchange::Failed(WireKind::Timeout)),
        Some(AttemptOutcome::WireErr {
            stage: UnlockStage::UnlockB,
            err: WireKind::Timeout
        })
    );
}

#[test]
fn try_once_no_cap_uses_per_attempt_only() {
    assert_eq!(op_timeout(2_000, None), 2_000);
    assert_eq!(
        after_exchange(UnlockStage::UnlockB, Exchange::Answered { valid: true }),
        Some(AttemptOutcome::Opened)
    );
    assert_eq!(
        after_exchange(UnlockStage::UnlockA, Exchange::Answered { valid: false }),
        Some(AttemptOutcome::BusinessErr {
            stage: UnlockStage::UnlockA
        })
    );
}

#[test]
fn golden_errclass_result_code() {
    let cases = [
        (WireFailure::SilentFin, -103),
        (WireFailure::Timeout, -5),
        (WireFailure::Other { retryable: true }, -1),
        (WireFailure::Other { retryable: false }, -1),
    ];
    for (failure, want) in cases {
        assert_eq!(
            classify_wire_kind(Some(map_wire_kind(failure))),
            want,
            "{failure:?}"
        );
    }
    assert_eq!(result::NO_RING, -103);
    assert_eq!(result::TIMEOUT, -5);
    assert_eq!(result::ERR, -1);
}

#[test]
fn mock_sender_notes_the_command() {
    let mut s = MockSender::with_result(-6);
    assert!(s.last_call().is_none());
    assert_eq!(
        s.execute_unlock([1, 2, 3, 4], [5, 6, 7, 8], "1.2.3.4", 9),
        Ok(-6)
    );
    assert_eq!(s.last_call().unwrap().target_ip, "1.2.3.4");
    let mut s = MockSender::wire_err("down");
    assert_eq!(
        s.execute_unlock([0; 4], [0; 4], "x", 1),
        Err(SenderError::Wire("down".into()))
    );
    assert_eq!(SenderError::Wire("down".into()).message(), "down");
}
