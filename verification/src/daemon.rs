//! The queue of wire jobs and the tasks that report events.

use vstd::prelude::*;
use vstd::string::*;

use crate::unlock::{
    SELF_UNLOCK_PROBE_INTERVAL_MS, SELF_UNLOCK_PROBE_TIMEOUT_MS, UNLOCK_RETRY_INTERVAL_MS,
};

verus! {

// ---------------------------------------------------------------------------
// Jobs
// ---------------------------------------------------------------------------

/// An unlock to carry out; `R` is where its outcome goes.
#[derive(Debug)]
pub struct UnlockJob<R> {
    pub caller_bcd: [u8; 4],
    pub callee_bcd: [u8; 4],
    pub target_ip: String,
    pub target_port: u16,
    pub reply: R,
    /// The limit on one attempt in milliseconds, where there is one.
    pub per_attempt_timeout: Option<u64>,
    /// The pause between attempts in milliseconds.
    pub retry_interval: u64,
}

/// A hang-up to carry out.
#[derive(Debug)]
pub struct HangupJob {
    /// The outdoor station.
    pub outdoor_bcd: [u8; 4],
    /// The indoor station.
    pub monitor_bcd: [u8; 4],
    pub outdoor_ip: String,
    pub outdoor_port: u16,
}

/// Work for the one task that sends on the wire.
#[derive(Debug)]
pub enum Job<R> {
    Unlock(UnlockJob<R>),
    Hangup(HangupJob),
    /// Stop after the jobs before this one.
    Shutdown,
}

/// Whether `j` unlocks by the given arguments.
pub open spec fn is_unlock<R>(
    j: UnlockJob<R>,
    caller_bcd: [u8; 4],
    callee_bcd: [u8; 4],
    target_ip: Seq<char>,
    target_port: u16,
    reply: R,
) -> bool {
    &&& j.caller_bcd == caller_bcd
    &&& j.callee_bcd == callee_bcd
    &&& j.target_ip@ == target_ip
    &&& j.target_port == target_port
    &&& j.reply == reply
}

/// An unlock that somebody asked for: attempts without a limit of their own, a second apart.
pub fn manual_unlock<R>(
    caller_bcd: [u8; 4],
    callee_bcd: [u8; 4],
    target_ip: &str,
    target_port: u16,
    reply: R,
) -> (j: UnlockJob<R>)
    ensures
        is_unlock(j, caller_bcd, callee_bcd, target_ip@, target_port, reply),
        j.per_attempt_timeout is None,
        j.retry_interval == UNLOCK_RETRY_INTERVAL_MS,
{
    UnlockJob {
        caller_bcd,
        callee_bcd,
        target_ip: target_ip.to_owned(),
        target_port,
        reply,
        per_attempt_timeout: None,
        retry_interval: UNLOCK_RETRY_INTERVAL_MS,
    }
}

/// An unlock that a ring asked for: short attempts in quick succession.
pub fn ring_unlock<R>(
    caller_bcd: [u8; 4],
    callee_bcd: [u8; 4],
    target_ip: &str,
    target_port: u16,
    reply: R,
) -> (j: UnlockJob<R>)
    ensures
        is_unlock(j, caller_bcd, callee_bcd, target_ip@, target_port, reply),
        j.per_attempt_timeout == Some(SELF_UNLOCK_PROBE_TIMEOUT_MS),
        j.retry_interval == SELF_UNLOCK_PROBE_INTERVAL_MS,
{
    UnlockJob {
        caller_bcd,
        callee_bcd,
        target_ip: target_ip.to_owned(),
        target_port,
        reply,
        per_attempt_timeout: Some(SELF_UNLOCK_PROBE_TIMEOUT_MS),
        retry_interval: SELF_UNLOCK_PROBE_INTERVAL_MS,
    }
}

/// What the worker does with a job.
#[derive(Debug)]
pub enum WorkerStep<R> {
    /// Stop.
    Stop,
    /// Carry out the unlock and hand its outcome to `reply`.
    Unlock(UnlockJob<R>),
    /// Tell the station that the call is over, without waiting for an answer.
    Hangup(HangupJob),
    /// Only log a line.
    Skip(String),
}

/// Whether `s` is what the worker does with `job`, where `can_hangup` says that it can send
/// hang-ups.
pub open spec fn does<R>(job: Job<R>, can_hangup: bool, s: WorkerStep<R>) -> bool {
    match job {
        Job::Shutdown => s is Stop,
        Job::Unlock(j) => s == WorkerStep::Unlock(j),
        Job::Hangup(j) => if can_hangup {
            s == WorkerStep::<R>::Hangup(j)
        } else {
            s matches WorkerStep::Skip(l) && l@
                == "auto-hangup skipped (no hangup wire injected, -> "@ + j.outdoor_ip@ + ")"@
        },
    }
}

/// What the worker does with a job, where `can_hangup` says that it can send hang-ups.
pub fn worker_step<R>(job: Job<R>, can_hangup: bool) -> (s: WorkerStep<R>)
    ensures
        does(job, can_hangup, s),
{
    match job {
        Job::Shutdown => WorkerStep::Stop,
        Job::Unlock(j) => WorkerStep::Unlock(j),
        Job::Hangup(j) => {
            if can_hangup {
                return WorkerStep::Hangup(j);
            }
            let mut line = "auto-hangup skipped (no hangup wire injected, -> ".to_owned();
            line.append(j.outdoor_ip.as_str());
            line.append(")");
            WorkerStep::Skip(line)
        },
    }
}

/// How many of the queued jobs the worker takes: all up to the first `Shutdown`.
pub open spec fn jobs_taken<R>(jobs: Seq<Job<R>>) -> int
    decreases jobs.len(),
{
    if jobs.len() == 0 || jobs[0] is Shutdown {
        0
    } else {
        1 + jobs_taken(jobs.skip(1))
    }
}

/// What the worker does with a queue, in order: the jobs up to the first `Shutdown`.
pub fn run_worker<R>(jobs: Vec<Job<R>>, can_hangup: bool) -> (steps: Vec<WorkerStep<R>>)
    ensures
        steps@.len() == jobs_taken(jobs@),
        jobs_taken(jobs@) <= jobs@.len(),
        forall|i: int|
            0 <= i < steps@.len() ==> does(jobs@[i], can_hangup, #[trigger] steps@[i])
                && !(jobs@[i] is Shutdown),
{
    let ghost all = jobs@;
    let mut rest = jobs;
    let mut steps: Vec<WorkerStep<R>> = Vec::new();
    let mut stopped = false;
    assert(all.skip(0) =~= all);
    while !stopped && rest.len() > 0
        invariant
            all == jobs@,
            steps@.len() <= all.len(),
            !stopped ==> rest@ == all.skip(steps@.len() as int),
            !stopped ==> jobs_taken(all) == steps@.len() + jobs_taken(rest@),
            stopped ==> jobs_taken(all) == steps@.len(),
            forall|i: int|
                0 <= i < steps@.len() ==> does(all[i], can_hangup, #[trigger] steps@[i]) && !(all[i]
                    is Shutdown),
        decreases rest@.len(),
    {
        let ghost before = rest@;
        let ghost done = steps@;
        let job = rest.remove(0);
        assert(job == all[done.len() as int]);
        assert(rest@ =~= before.skip(1));
        assert(rest@ =~= all.skip(done.len() as int + 1));
        let step = worker_step(job, can_hangup);
        assert(does(all[done.len() as int], can_hangup, step));
        match step {
            WorkerStep::Stop => {
                assert(all[done.len() as int] is Shutdown);
                assert(steps@ == done);
                stopped = true;
            },
            s => {
                assert(!(all[done.len() as int] is Shutdown));
                steps.push(s);
                assert(steps@ == done.push(s));
            },
        }
        assert forall|i: int| 0 <= i < steps@.len() implies does(
            all[i],
            can_hangup,
            #[trigger] steps@[i],
        ) && !(all[i] is Shutdown) by {
            if i < done.len() {
                assert(steps@[i] == done[i]);
            }
        }
    }
    steps
}

/// The line for a hang-up that could not be sent.
pub fn hangup_failure(ip: &str, e: &str) -> (line: String)
    ensures
        line@ == "auto-hangup (req=708 -> "@ + ip@ + "): "@ + e@,
{
    let mut line = "auto-hangup (req=708 -> ".to_owned();
    line.append(ip);
    line.append("): ");
    line.append(e);
    line
}

/// What comes of queueing a job, where `sent` says that the worker still takes some.
pub fn submit_job(sent: bool) -> (r: Result<(), &'static str>)
    ensures
        sent == (r is Ok),
        r matches Err(e) ==> e@ == "worker queue closed"@,
{
    if sent {
        Ok(())
    } else {
        Err("worker queue closed")
    }
}

// ---------------------------------------------------------------------------
// Reporting tasks
// ---------------------------------------------------------------------------

/// The tasks that report events and may not have ended.
#[derive(Debug)]
pub struct PushTracker<H> {
    handles: Vec<H>,
}

impl<H> View for PushTracker<H> {
    type V = Seq<H>;

    closed spec fn view(&self) -> Seq<H> {
        self.handles@
    }
}

impl<H> Default for PushTracker<H> {
    fn default() -> (t: Self)
        ensures
            t@ == Seq::<H>::empty(),
    {
        PushTracker::new()
    }
}

/// The first `n` tasks without those that have ended.
pub open spec fn running<H>(handles: Seq<H>, finished: Seq<bool>, n: nat) -> Seq<H>
    decreases n,
{
    if n == 0 {
        Seq::empty()
    } else {
        let before = running(handles, finished, (n - 1) as nat);
        if finished[n - 1] {
            before
        } else {
            before.push(handles[n - 1])
        }
    }
}

impl<H> PushTracker<H> {
    /// No tasks.
    pub fn new() -> (t: Self)
        ensures
            t@ == Seq::<H>::empty(),
    {
        PushTracker { handles: Vec::new() }
    }

    /// Adds a task and forgets those that have ended.
    pub fn register(&mut self, handle: H, finished: &[bool])
        requires
            finished@.len() == old(self)@.len(),
        ensures
            final(self)@ == running(old(self)@, finished@, old(self)@.len()).push(handle),
    {
        let ghost all = self@;
        let mut kept: Vec<H> = Vec::new();
        let mut i: usize = 0;
        while i < finished.len()
            invariant
                i <= finished@.len() == all.len(),
                self.handles@ == all.skip(i as int),
                kept@ == running(all, finished@, i as nat),
            decreases finished@.len() - i,
        {
            let h = self.handles.remove(0);
            assert(h == all[i as int]);
            assert(self.handles@ =~= all.skip(i + 1));
            if !finished[i] {
                kept.push(h);
            }
            i = i + 1;
        }
        kept.push(handle);
        self.handles = kept;
    }

    /// Hands out all tasks, to be waited for.
    pub fn join_all(&mut self) -> (hs: Vec<H>)
        ensures
            hs@ == old(self)@,
            final(self)@ == Seq::<H>::empty(),
    {
        let mut hs: Vec<H> = Vec::new();
        hs.append(&mut self.handles);
        assert(hs@ =~= old(self)@);
        hs
    }

    /// The tasks, for asking whether they have ended.
    pub fn handles(&self) -> (hs: &[H])
        ensures
            hs@ == self@,
    {
        self.handles.as_slice()
    }

    pub fn len(&self) -> (n: usize)
        ensures
            n == self@.len(),
    {
        self.handles.len()
    }

    pub fn is_empty(&self) -> (r: bool)
        ensures
            r == (self@.len() == 0),
    {
        self.handles.len() == 0
    }
}

/// Only tasks that have not ended are kept, so that their number does not grow with the number of
/// events reported.
pub proof fn law_ended_tasks_go<H>(handles: Seq<H>, finished: Seq<bool>, n: nat)
    requires
        n <= handles.len(),
        handles.len() == finished.len(),
    ensures
        running(handles, finished, n).len() <= n,
        (forall|i: int| 0 <= i < n ==> #[trigger] finished[i]) ==> running(
            handles,
            finished,
            n,
        ).len() == 0,
        (forall|i: int| 0 <= i < n ==> !#[trigger] finished[i]) ==> running(handles, finished, n)
            == handles.take(n as int),
    decreases n,
{
    if n > 0 {
        law_ended_tasks_go(handles, finished, (n - 1) as nat);
        assert(handles.take(n as int) =~= handles.take(n - 1).push(handles[n - 1]));
    } else {
        assert(handles.take(0) =~= Seq::<H>::empty());
    }
}

/// What a task that waits before it acts does next.
#[derive(Debug, Clone, Copy, PartialEq, Eq, Structural)]
pub enum DelayStep {
    /// Give up, since the daemon is shutting down.
    Abandon,
    /// Act.
    Act,
    /// Look again after this many milliseconds.
    Wait(u64),
}

/// How long a waiting task sleeps at most, in milliseconds.
pub const POLL_SLICE_MS: u64 = 20;

/// What a task does next that acts `delay` milliseconds after its start, `elapsed` milliseconds
/// after it.
pub fn settle_step(closing: bool, elapsed: u64, delay: u64) -> (s: DelayStep)
    ensures
        s == (if closing {
            DelayStep::Abandon
        } else if elapsed >= delay {
            DelayStep::Act
        } else if delay - elapsed < POLL_SLICE_MS {
            DelayStep::Wait((delay - elapsed) as u64)
        } else {
            DelayStep::Wait(POLL_SLICE_MS)
        }),
{
    if closing {
        return DelayStep::Abandon;
    }
    if elapsed >= delay {
        return DelayStep::Act;
    }
    let left: u64 = delay - elapsed;
    DelayStep::Wait(if left < POLL_SLICE_MS {
        left
    } else {
        POLL_SLICE_MS
    })
}

} // verus!
