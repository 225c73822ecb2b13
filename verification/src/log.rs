//! Log lines with a time stamp.

use vstd::prelude::*;
use vstd::string::*;

use crate::text;
use crate::text::push_dec_padded;

verus! {

/// A point in local time, with the year counted from 1900 and the month from 0.
#[derive(Debug, Clone, Copy, PartialEq, Eq, Structural)]
pub struct Tm {
    pub tm_sec: i32,
    pub tm_min: i32,
    pub tm_hour: i32,
    pub tm_mday: i32,
    pub tm_mon: i32,
    pub tm_year: i32,
}

/// The point at which every field is zero; it stands for a time that is not known.
pub open spec fn no_time() -> Tm {
    Tm { tm_sec: 0, tm_min: 0, tm_hour: 0, tm_mday: 0, tm_mon: 0, tm_year: 0 }
}

/// The line for `msg` at `tm` and `millis` milliseconds.
pub open spec fn line_text(tm: Tm, millis: u32, msg: Seq<char>) -> Seq<char> {
    "dooraccess-rs: "@ + text::dec_padded(tm.tm_year + 1900, 4) + "/"@ + text::dec_padded(
        tm.tm_mon + 1,
        2,
    ) + "/"@ + text::dec_padded(tm.tm_mday as int, 2) + " "@ + text::dec_padded(
        tm.tm_hour as int,
        2,
    ) + ":"@ + text::dec_padded(tm.tm_min as int, 2) + ":"@ + text::dec_padded(tm.tm_sec as int, 2)
        + "."@ + text::dec_padded(millis as int, 3) + " "@ + msg
}

/// The line for `msg` at `tm` and `millis` milliseconds.
pub fn render(tm: &Tm, millis: u32, msg: &str) -> (out: String)
    ensures
        out@ == line_text(*tm, millis, msg@),
{
    let mut out = "dooraccess-rs: ".to_owned();
    push_dec_padded(&mut out, tm.tm_year as i64 + 1900, 4);
    out.append("/");
    push_dec_padded(&mut out, tm.tm_mon as i64 + 1, 2);
    out.append("/");
    push_dec_padded(&mut out, tm.tm_mday as i64, 2);
    out.append(" ");
    push_dec_padded(&mut out, tm.tm_hour as i64, 2);
    out.append(":");
    push_dec_padded(&mut out, tm.tm_min as i64, 2);
    out.append(":");
    push_dec_padded(&mut out, tm.tm_sec as i64, 2);
    out.append(".");
    push_dec_padded(&mut out, millis as i64, 3);
    out.append(" ");
    out.append(msg);
    out
}

/// An integer type that counts seconds.
pub trait Seconds {
    /// Whether the type can hold `secs`.
    spec fn can_hold(secs: i64) -> bool;

    fn holds(secs: i64) -> (r: bool)
        ensures
            r == Self::can_hold(secs),
    ;
}

impl Seconds for i32 {
    open spec fn can_hold(secs: i64) -> bool {
        i32::MIN <= secs <= i32::MAX
    }

    fn holds(secs: i64) -> (r: bool) {
        i32::MIN as i64 <= secs && secs <= i32::MAX as i64
    }
}

impl Seconds for i64 {
    open spec fn can_hold(secs: i64) -> bool {
        true
    }

    fn holds(secs: i64) -> (r: bool) {
        true
    }
}

/// Whether seconds since the epoch fit into the type `T`.
pub fn secs_in_time_t_range<T: Seconds>(secs: i64) -> (r: bool)
    ensures
        r == T::can_hold(secs),
{
    T::holds(secs)
}

/// Seconds since the epoch and milliseconds for a clock that shows `since` whole seconds and
/// nanoseconds, or a time before the epoch, which counts as the epoch.
pub fn epoch_parts(since: Option<(i64, u32)>) -> (r: (i64, u32))
    ensures
        r == (match since {
            Some((secs, nanos)) => (secs, nanos / 1_000_000),
            None => (0i64, 0u32),
        }),
{
    match since {
        Some((secs, nanos)) => (secs, nanos / 1_000_000),
        None => (0, 0),
    }
}

/// The line for `msg` at `local_tm`, where the local time is known.
pub fn compose(local_tm: Option<Tm>, millis: u32, msg: &str) -> (out: String)
    ensures
        out@ == line_text(
            match local_tm {
                Some(t) => t,
                None => no_time(),
            },
            millis,
            msg@,
        ),
{
    let tm = match local_tm {
        Some(t) => t,
        None => Tm { tm_sec: 0, tm_min: 0, tm_hour: 0, tm_mday: 0, tm_mon: 0, tm_year: 0 },
    };
    render(&tm, millis, msg)
}

/// Whatever the clock shows, the line starts with the program's name and ends with the message.
pub proof fn law_line_keeps_message(tm: Tm, millis: u32, msg: Seq<char>)
    ensures
        text::has_prefix(line_text(tm, millis, msg), "dooraccess-rs: "@),
        line_text(tm, millis, msg).len() >= msg.len(),
        line_text(tm, millis, msg).skip(line_text(tm, millis, msg).len() - msg.len()) == msg,
{
    let line = line_text(tm, millis, msg);
    assert(line.skip(line.len() - msg.len()) =~= msg);
    assert(line.take("dooraccess-rs: "@.len() as int) =~= "dooraccess-rs: "@);
}

} // verus!
