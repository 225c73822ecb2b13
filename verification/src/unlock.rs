//! What an attempt to unlock a door came to.

use vstd::prelude::*;

verus! {

/// How an exchange with a station failed.
#[derive(Debug, Clone, Copy, PartialEq, Eq, Structural)]
pub enum WireKind {
    /// The station closed the connection without a word, as it does when nobody rings.
    SilentFin,
    Timeout,
    /// Worth another attempt.
    Retryable,
    Other,
}

/// The time in which all attempts have to end, in milliseconds.
pub const UNLOCK_TOTAL_CAP_MS: u64 = 10_000;

/// The pause between attempts that somebody asked for, in milliseconds.
pub const UNLOCK_RETRY_INTERVAL_MS: u64 = 1_000;

/// The limit on one attempt where a ring asked for it, in milliseconds.
pub const SELF_UNLOCK_PROBE_TIMEOUT_MS: u64 = 800;

/// The pause between attempts where a ring asked for them, in milliseconds.
pub const SELF_UNLOCK_PROBE_INTERVAL_MS: u64 = 200;

/// The outcome of an unlock.
#[derive(Debug, Clone, Copy, PartialEq, Eq, Structural)]
pub struct UnlockOutcome {
    /// A result code.
    pub result: i32,
    /// Number of attempts after the first.
    pub retries: u32,
    /// The ringing ended while attempts were being made.
    pub terminated_by_bye: bool,
    /// How the last exchange failed, if one did.
    pub wire_kind: Option<WireKind>,
}

/// The outcome where the worker is gone: a failed exchange of no known kind.
pub open spec fn unavailable() -> UnlockOutcome {
    UnlockOutcome {
        result: crate::codec::result::ERR,
        retries: 0,
        terminated_by_bye: false,
        wire_kind: Some(WireKind::Other),
    }
}

} // verus!
