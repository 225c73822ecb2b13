//! Jobs, attempts and waiting.

use vstd::prelude::*;
use vstd::string::*;
use vstd::utf8::*;

use super::answers;
use super::forms;
use super::replies;
use super::serving;
use crate::control::endpoints::{classify_wire_kind, handle_unlock, Push, SenderDispatch};
use crate::daemon;
use crate::daemon::{hangup_failure, manual_unlock, ring_unlock, run_worker, settle_step, submit_job,
    worker_step, DelayStep, Job, PushTracker, UnlockJob, WorkerStep};
use crate::httpx::{Request, ResponseWriter};
use crate::orchestration::{worker_outcome, worker_unavailable_outcome};
use crate::sender::{after_exchange, map_wire_kind, op_timeout, AttemptOutcome, Exchange, MockSender,
    UnlockStage, WireFailure};
use crate::unlock::{UnlockOutcome, WireKind};

verus! {

// ---------------------------------------------------------------------------
// Jobs
// ---------------------------------------------------------------------------

/// The job carries these arguments.
pub open spec fn carries<R>(
    j: UnlockJob<R>,
    caller: [u8; 4],
    callee: [u8; 4],
    ip: Seq<char>,
    port: u16,
    reply: R,
) -> bool {
    &&& j.caller_bcd@ == caller@ && j.callee_bcd@ == callee@
    &&& j.target_ip@ == ip && j.target_port == port
    &&& j.reply == reply
}

/// An unlock that somebody asked for is tried once a second, each time for as long as it takes;
/// one that a ring asked for five times a second, for at most 800 milliseconds each.
pub proof fn law_unlock_jobs<R>(
    caller: [u8; 4],
    callee: [u8; 4],
    ip: &str,
    port: u16,
    reply: R,
    m: UnlockJob<R>,
    r: UnlockJob<R>,
)
    requires
        call_ensures(manual_unlock::<R>, (caller, callee, ip, port, reply), m),
        call_ensures(ring_unlock::<R>, (caller, callee, ip, port, reply), r),
    ensures
        carries(m, caller, callee, ip@, port, reply),
        m.per_attempt_timeout is None,
        m.retry_interval == 1_000,
        carries(r, caller, callee, ip@, port, reply),
        r.per_attempt_timeout == Some(800u64),
        r.retry_interval == 200,
{
}

/// The worker carries out unlocks as they are queued, and hang-ups where it can send them; where it
/// cannot, that is logged. It stops when it is told to.
pub proof fn law_jobs_are_done<R>(job: Job<R>, can_hangup: bool, s: WorkerStep<R>)
    requires
        call_ensures(worker_step::<R>, (job, can_hangup), s),
    ensures
        job is Shutdown <==> s is Stop,
        job matches Job::Unlock(j) ==> (s matches WorkerStep::Unlock(k) && k == j),
        job matches Job::Hangup(j) ==> can_hangup ==> (s matches WorkerStep::Hangup(k) && k == j),
        job matches Job::Hangup(j) ==> !can_hangup ==> (s matches WorkerStep::Skip(l) && l@
            == "auto-hangup skipped (no hangup wire injected, -> "@ + j.outdoor_ip@ + ")"@),
{
}

proof fn lemma_taken<R>(jobs: Seq<Job<R>>, k: int)
    requires
        0 <= k <= jobs.len(),
        forall|i: int| 0 <= i < k ==> !((#[trigger] jobs[i]) is Shutdown),
        k < jobs.len() ==> jobs[k] is Shutdown,
    ensures
        daemon::jobs_taken(jobs) == k,
    decreases k,
{
    if k > 0 {
        assert(!(jobs[0] is Shutdown));
        let rest = jobs.skip(1);
        assert forall|i: int| 0 <= i < k - 1 implies !((#[trigger] rest[i]) is Shutdown) by {
            assert(rest[i] == jobs[i + 1]);
        }
        lemma_taken(rest, k - 1);
    }
}

/// Jobs are done in their order: all that were queued before the worker was told to stop, and none
/// behind that.
pub proof fn law_jobs_in_order<R>(
    jobs: Vec<Job<R>>,
    can_hangup: bool,
    steps: Vec<WorkerStep<R>>,
    k: int,
)
    requires
        call_ensures(run_worker::<R>, (jobs, can_hangup), steps),
        0 <= k <= jobs@.len(),
        forall|i: int| 0 <= i < k ==> !((#[trigger] jobs@[i]) is Shutdown),
        k < jobs@.len() ==> jobs@[k] is Shutdown,
    ensures
        steps@.len() == k,
        forall|i: int|
            0 <= i < k ==> match jobs@[i] {
                Job::Unlock(j) => #[trigger] steps@[i] matches WorkerStep::Unlock(x) && x == j,
                Job::Hangup(j) => if can_hangup {
                    steps@[i] matches WorkerStep::Hangup(x) && x == j
                } else {
                    steps@[i] is Skip
                },
                Job::Shutdown => false,
            },
{
    lemma_taken(jobs@, k);
}

/// The lines for a hang-up that failed and for a worker that is gone.
pub proof fn law_worker_lines(ip: &str, e: &str, line: String, sent: bool, r: Result<(), &'static str>)
    requires
        call_ensures(hangup_failure, (ip, e), line),
        call_ensures(submit_job, (sent,), r),
    ensures
        line@ == "auto-hangup (req=708 -> "@ + ip@ + "): "@ + e@,
        sent ==> r is Ok,
        !sent ==> (r matches Err(m) && m@ == "worker queue closed"@),
{
}

// ---------------------------------------------------------------------------
// Tasks
// ---------------------------------------------------------------------------

/// How many of the first `n` tasks are still running.
pub open spec fn still(finished: Seq<bool>, n: int) -> int
    decreases n,
{
    if n <= 0 {
        0
    } else {
        still(finished, n - 1) + (if finished[n - 1] {
            0int
        } else {
            1
        })
    }
}

proof fn lemma_running<H>(handles: Seq<H>, finished: Seq<bool>, n: nat)
    requires
        n <= handles.len(),
        handles.len() == finished.len(),
    ensures
        daemon::running(handles, finished, n).len() == still(finished, n as int),
        forall|i: int|
            0 <= i < n && !finished[i] ==> 0 <= #[trigger] still(finished, i) < still(
                finished,
                n as int,
            ) && daemon::running(handles, finished, n)[still(finished, i)] == handles[i],
    decreases n,
{
    if n > 0 {
        lemma_running(handles, finished, (n - 1) as nat);
    }
}

/// A new task stands behind those that are still running, which keep their order; those that have
/// ended are forgotten.
pub proof fn law_tasks_are_tracked<H>(t: &mut PushTracker<H>, h: H, finished: &[bool])
    requires
        finished@.len() == old(t)@.len(),
        call_ensures(PushTracker::<H>::register, (t, h, finished), ()),
    ensures
        ({
            let n = old(t)@.len() as int;
            &&& final(t)@.len() == still(finished@, n) + 1
            &&& final(t)@.last() == h
            &&& forall|i: int|
                0 <= i < n && !finished@[i] ==> 0 <= #[trigger] still(finished@, i)
                    < final(t)@.len() - 1 && final(t)@[still(finished@, i)] == old(t)@[i]
        }),
{
    lemma_running(old(t)@, finished@, old(t)@.len());
}

/// All tasks are handed out to be waited for, and none is left.
pub proof fn law_tasks_are_joined<H>(t: &mut PushTracker<H>, hs: Vec<H>)
    requires
        call_ensures(PushTracker::<H>::join_all, (t,), hs),
    ensures
        hs@ == old(t)@,
        final(t)@.len() == 0,
{
}

/// A task that waits acts once the time has passed and not before, unless the daemon is shutting
/// down; it looks again at least every 20 milliseconds, and not after its time.
pub proof fn law_waiting_tasks(closing: bool, elapsed: u64, delay: u64, s: DelayStep)
    requires
        call_ensures(settle_step, (closing, elapsed, delay), s),
    ensures
        s is Abandon <==> closing,
        s is Act <==> !closing && elapsed >= delay,
        s matches DelayStep::Wait(t) ==> 0 < t <= 20 && elapsed + t <= delay && (t == 20 || elapsed
            + t == delay),
{
}

// ---------------------------------------------------------------------------
// Attempts
// ---------------------------------------------------------------------------

/// An attempt is two exchanges: the second follows only where the first was answered as it should
/// be, and the door is open only where the second was too. A failure tells in which exchange and
/// how.
pub proof fn law_attempts(stage: UnlockStage, x: Exchange, r: Option<AttemptOutcome>)
    requires
        call_ensures(after_exchange, (stage, x), r),
    ensures
        r is None <==> stage is UnlockA && x == (Exchange::Answered { valid: true }),
        r == Some(AttemptOutcome::Opened) <==> stage is UnlockB && x == (Exchange::Answered {
            valid: true,
        }),
        x == (Exchange::Answered { valid: false }) ==> r == Some(
            AttemptOutcome::BusinessErr { stage },
        ),
        x matches Exchange::Failed(k) ==> r == Some(AttemptOutcome::WireErr { stage, err: k }),
{
}

/// An exchange may take as long as any may, but no longer than is left.
pub proof fn law_exchange_limits(cap: u64, left: Option<u64>, t: u64)
    requires
        call_ensures(op_timeout, (cap, left), t),
    ensures
        t <= cap,
        left is None ==> t == cap,
        left matches Some(l) ==> t <= l && (t == cap || t == l),
{
}

/// How a failed exchange counts.
pub proof fn law_failures(e: WireFailure, k: WireKind, kind: Option<WireKind>, code: i32)
    requires
        call_ensures(map_wire_kind, (e,), k),
        call_ensures(classify_wire_kind, (kind,), code),
    ensures
        k is SilentFin <==> e is SilentFin,
        k is Timeout <==> e is Timeout,
        k is Retryable <==> e == (WireFailure::Other { retryable: true }),
        k is Other <==> e == (WireFailure::Other { retryable: false }),
        code == -103 <==> kind == Some(WireKind::SilentFin),
        code == -5 <==> kind == Some(WireKind::Timeout),
        code == -1 <==> kind == Some(WireKind::Retryable) || kind == Some(WireKind::Other),
        code == 0 <==> kind is None,
{
}

/// The outcome that the worker hands back is the outcome of the unlock; where the worker is gone
/// it is a failure of the exchange.
pub proof fn law_worker_gone(
    reply: Option<UnlockOutcome>,
    o: UnlockOutcome,
    gone: UnlockOutcome,
)
    requires
        call_ensures(worker_outcome, (reply,), o),
        call_ensures(worker_unavailable_outcome, (), gone),
    ensures
        reply matches Some(x) ==> o == x,
        reply is None ==> o == gone,
        gone.result == -1,
        gone.wire_kind == Some(WireKind::Other),
        !gone.terminated_by_bye,
        gone.retries == 0,
{
}

/// What is asked for is sent, and the result that comes back is answered: 0 where the door opened,
/// -1 where that failed, which is reported too.
#[verifier::rlimit(40)]
pub proof fn law_unlock_is_sent<W: ResponseWriter>(
    d: &mut SenderDispatch<MockSender>,
    w: &mut W,
    r: Request,
    p: Option<Push>,
    from: (Seq<char>, Seq<u8>, u16),
    to: (Seq<char>, Seq<u8>, u16),
)
    requires
        replies::unsent(old(w).reply()),
        call_ensures(handle_unlock::<W, SenderDispatch<MockSender>>, (d, w, &r), p),
        forms::is_number(from.0) && from.1.len() == 4 && from.2 >= 1,
        forms::is_number(to.0) && to.1.len() == 4 && to.2 >= 1,
        r.body@ == serving::unlock_body(
            forms::address(from.0, from.1, from.2),
            forms::address(to.0, to.1, to.2),
        ),
        r.body@.len() <= 1048576,
    ensures
        final(d).sender.last() matches Some(c) && {
            &&& forms::packs(c.caller_bcd@, to.0)
            &&& forms::packs(c.callee_bcd@, from.0)
            &&& c.target_ip == forms::dotted(to.1)
            &&& c.target_port == to.2
        },
        old(d).sender.gives() == Ok::<i32, Seq<char>>(0) ==> replies::says(
            final(w).reply(),
            200,
            "{\"result\":0}"@,
        ) && p is None,
        old(d).sender.gives() is Err ==> replies::says(
            final(w).reply(),
            200,
            "{\"result\":-1}"@,
        ) && answers::reports(
            p,
            "unlock"@,
            "-1"@,
            forms::address(from.0, from.1, from.2),
            forms::address(to.0, to.1, to.2),
        ),
{
    serving::lemma_unlock_plan(r.body@, from, to);
    let before = old(w).reply();
    replies::lemma_codes();
    replies::lemma_result_texts();
    replies::lemma_result_reply(before, 200, 0);
    replies::lemma_result_reply(before, 200, -1);
    if p is Some && old(d).sender.gives() is Err {
        answers::lemma_reported(
            p,
            "unlock"@,
            crate::codec::result::ERR,
            forms::address(from.0, from.1, from.2),
            forms::address(to.0, to.1, to.2),
        );
    }
}

} // verus!
