//! Sending unlock commands to a station.

use vstd::prelude::*;
use vstd::string::*;

use crate::unlock::WireKind;

verus! {

/// The arguments of an unlock command.
#[derive(Debug, Clone, PartialEq, Eq)]
pub struct UnlockCall {
    pub caller_bcd: [u8; 4],
    pub callee_bcd: [u8; 4],
    pub target_ip: String,
    pub target_port: u16,
}

/// `UnlockCall` with its text as a sequence.
pub struct CallView {
    pub caller_bcd: [u8; 4],
    pub callee_bcd: [u8; 4],
    pub target_ip: Seq<char>,
    pub target_port: u16,
}

impl View for UnlockCall {
    type V = CallView;

    open spec fn view(&self) -> CallView {
        CallView {
            caller_bcd: self.caller_bcd,
            callee_bcd: self.callee_bcd,
            target_ip: self.target_ip@,
            target_port: self.target_port,
        }
    }
}

/// Why no result code came back.
#[derive(Debug, Clone, PartialEq, Eq)]
pub enum SenderError {
    Wire(String),
}

impl SenderError {
    /// The text shown for the error.
    pub fn message(&self) -> (out: String)
        ensures
            out@ == (self->Wire_0)@,
    {
        match self {
            SenderError::Wire(m) => m.clone(),
        }
    }
}

/// A result code or the text of an error.
pub open spec fn sent_view(r: Result<i32, SenderError>) -> Result<i32, Seq<char>> {
    match r {
        Ok(n) => Ok(n),
        Err(SenderError::Wire(m)) => Err(m@),
    }
}

/// Carries out an unlock command: the caller is the outdoor station, the callee the monitor.
pub trait Sender: Sized {
    /// Whether the command may end with `r` and leave the sender as `after`.
    spec fn may_end(&self, call: CallView, r: Result<i32, Seq<char>>, after: Self) -> bool;

    fn execute_unlock(
        &mut self,
        caller_bcd: [u8; 4],
        callee_bcd: [u8; 4],
        target_ip: &str,
        target_port: u16,
    ) -> (r: Result<i32, SenderError>)
        ensures
            old(self).may_end(
                (CallView { caller_bcd, callee_bcd, target_ip: target_ip@, target_port }),
                sent_view(r),
                *final(self),
            ),
    ;
}

/// A sender that sends nothing, notes the command and gives a result fixed beforehand.
#[derive(Debug)]
pub struct MockSender {
    outcome: Result<i32, SenderError>,
    last: Option<UnlockCall>,
}

impl MockSender {
    /// The result it gives.
    pub closed spec fn gives(&self) -> Result<i32, Seq<char>> {
        sent_view(self.outcome)
    }

    /// The last command.
    pub closed spec fn last(&self) -> Option<CallView> {
        match self.last {
            Some(c) => Some(c@),
            None => None,
        }
    }

    /// Gives the result code 0.
    pub fn success() -> (s: Self)
        ensures
            s.gives() == Ok::<i32, Seq<char>>(0),
            s.last() is None,
    {
        MockSender { outcome: Ok(0), last: None }
    }

    /// Gives a result code.
    pub fn with_result(result: i32) -> (s: Self)
        ensures
            s.gives() == Ok::<i32, Seq<char>>(result),
            s.last() is None,
    {
        MockSender { outcome: Ok(result), last: None }
    }

    /// Fails.
    pub fn wire_err(msg: &str) -> (s: Self)
        ensures
            s.gives() == Err::<i32, Seq<char>>(msg@),
            s.last() is None,
    {
        MockSender { outcome: Err(SenderError::Wire(msg.to_owned())), last: None }
    }

    /// The last command, if there was one.
    pub fn last_call(&self) -> (r: Option<&UnlockCall>)
        ensures
            match r {
                Some(c) => self.last() == Some(c@),
                None => self.last() is None,
            },
    {
        match &self.last {
            Some(c) => Some(c),
            None => None,
        }
    }
}

impl Sender for MockSender {
    open spec fn may_end(&self, call: CallView, r: Result<i32, Seq<char>>, after: Self) -> bool {
        r == self.gives() && after.gives() == self.gives() && after.last() == Some(call)
    }

    fn execute_unlock(
        &mut self,
        caller_bcd: [u8; 4],
        callee_bcd: [u8; 4],
        target_ip: &str,
        target_port: u16,
    ) -> (r: Result<i32, SenderError>) {
        self.last = Some(
            UnlockCall { caller_bcd, callee_bcd, target_ip: target_ip.to_owned(), target_port },
        );
        match &self.outcome {
            Ok(code) => Ok(*code),
            Err(SenderError::Wire(m)) => Err(SenderError::Wire(m.clone())),
        }
    }
}

// ---------------------------------------------------------------------------
// One attempt
// ---------------------------------------------------------------------------

/// The two exchanges of an attempt.
#[derive(Debug, Clone, Copy, PartialEq, Eq, Structural)]
pub enum UnlockStage {
    UnlockA,
    UnlockB,
}

/// What an attempt came to.
#[derive(Debug, Clone, Copy, PartialEq, Eq, Structural)]
pub enum AttemptOutcome {
    Opened,
    /// The station answered, but not as it should.
    BusinessErr { stage: UnlockStage },
    WireErr { stage: UnlockStage, err: WireKind },
}

/// What an exchange came to.
#[derive(Debug, Clone, Copy, PartialEq, Eq, Structural)]
pub enum Exchange {
    Failed(WireKind),
    /// The station answered; `valid` says whether with what was expected.
    Answered { valid: bool },
}

/// How a failed exchange ended.
#[derive(Debug, Clone, Copy, PartialEq, Eq, Structural)]
pub enum WireFailure {
    SilentFin,
    Timeout,
    /// Anything else; `retryable` says whether it may pass.
    Other { retryable: bool },
}

/// The kind of a failed exchange.
pub fn map_wire_kind(e: WireFailure) -> (k: WireKind)
    ensures
        k == match e {
            WireFailure::SilentFin => WireKind::SilentFin,
            WireFailure::Timeout => WireKind::Timeout,
            WireFailure::Other { retryable } => if retryable {
                WireKind::Retryable
            } else {
                WireKind::Other
            },
        },
{
    match e {
        WireFailure::SilentFin => WireKind::SilentFin,
        WireFailure::Timeout => WireKind::Timeout,
        WireFailure::Other { retryable } => if retryable {
            WireKind::Retryable
        } else {
            WireKind::Other
        },
    }
}

/// The time limit of the next exchange: the limit of one exchange, but no more than what is
/// left for all of them.
pub open spec fn exchange_limit(cap: u64, remaining: Option<u64>) -> u64 {
    match remaining {
        Some(r) => if r < cap {
            r
        } else {
            cap
        },
        None => cap,
    }
}

/// The time limit of the next exchange.
pub fn op_timeout(cap: u64, remaining: Option<u64>) -> (t: u64)
    ensures
        t == exchange_limit(cap, remaining),
{
    match remaining {
        Some(r) => if r < cap {
            r
        } else {
            cap
        },
        None => cap,
    }
}

/// What follows an exchange: `None` to go on with the second one, else the attempt is over.
pub open spec fn attempt_next(stage: UnlockStage, x: Exchange) -> Option<AttemptOutcome> {
    match x {
        Exchange::Failed(err) => Some(AttemptOutcome::WireErr { stage, err }),
        Exchange::Answered { valid } => if !valid {
            Some(AttemptOutcome::BusinessErr { stage })
        } else if stage == UnlockStage::UnlockA {
            None
        } else {
            Some(AttemptOutcome::Opened)
        },
    }
}

/// What follows an exchange.
pub fn after_exchange(stage: UnlockStage, x: Exchange) -> (r: Option<AttemptOutcome>)
    ensures
        r == attempt_next(stage, x),
{
    match x {
        Exchange::Failed(err) => Some(AttemptOutcome::WireErr { stage, err }),
        Exchange::Answered { valid } => {
            if !valid {
                return Some(AttemptOutcome::BusinessErr { stage });
            }
            match stage {
                UnlockStage::UnlockA => None,
                UnlockStage::UnlockB => Some(AttemptOutcome::Opened),
            }
        },
    }
}

/// The two exchanges of an attempt together take no longer than what was left before the
/// first, where each keeps to its limit: what the first takes is not left for the second.
pub proof fn law_attempt_keeps_to_cap(cap: u64, left: u64, a: u64, b: u64)
    requires
        a <= exchange_limit(cap, Some(left)),
        b <= exchange_limit(cap, Some((left - a) as u64)),
    ensures
        a + b <= left,
        a + b <= 2 * cap,
{
}

} // verus!
