//! Packet sockets: byte order, filter instructions and errors.

use vstd::endian::*;
use vstd::prelude::*;
use vstd::string::*;

use crate::text;
use crate::text::{chars_of, find_char, push_dec_int};

verus! {

// ---------------------------------------------------------------------------
// Byte order
// ---------------------------------------------------------------------------

/// `u16::from_ne_bytes`: the number that two bytes hold in the machine's own byte order.
#[verifier::external_body]
fn from_native(b: [u8; 2]) -> (v: u16)
    ensures
        v == (match endianness() {
            Endian::Big => b@[0] * 256 + b@[1],
            Endian::Little => b@[1] * 256 + b@[0],
        }),
{
    u16::from_ne_bytes(b)
}

/// A number as it stands in memory in network byte order: the same on a big-endian machine, its
/// bytes swapped on a little-endian one.
pub open spec fn net_order(v: u16) -> u16 {
    match endianness() {
        Endian::Big => v,
        Endian::Little => ((v % 256) * 256 + v / 256) as u16,
    }
}

/// Puts a number into network byte order.
pub fn htons(v: u16) -> (r: u16)
    ensures
        r == net_order(v),
{
    from_native([(v / 256) as u8, (v % 256) as u8])
}

/// Putting a number into network byte order twice gives it back.
pub proof fn law_net_order_undoes_itself(v: u16)
    ensures
        net_order(net_order(v)) == v,
{
}

// ---------------------------------------------------------------------------
// Filters
// ---------------------------------------------------------------------------

/// One filter instruction.
#[derive(Debug, Clone, Copy, PartialEq, Eq, Structural)]
pub struct SockFilter {
    pub code: u16,
    pub jt: u8,
    pub jf: u8,
    pub k: u32,
}

// ---------------------------------------------------------------------------
// Errors
// ---------------------------------------------------------------------------

/// Why a socket could not be used.
#[derive(Debug)]
pub enum FfiError {
    /// The platform has no packet sockets.
    Unsupported,
    /// A system call failed with `errno`.
    Syscall { stage: &'static str, errno: i32 },
    /// The interface has no usable name or does not exist.
    Interface(String),
}

impl FfiError {
    /// The text shown for the error.
    pub open spec fn text(&self) -> Seq<char> {
        match self {
            FfiError::Unsupported => "PF_PACKET only supported on Linux"@,
            FfiError::Syscall { stage, errno } => stage@ + ": errno "@ + text::dec_int(*errno as int),
            FfiError::Interface(m) => "interface: "@ + m@,
        }
    }

    /// The text shown for the error.
    pub fn message(&self) -> (out: String)
        ensures
            out@ == self.text(),
    {
        match self {
            FfiError::Unsupported => "PF_PACKET only supported on Linux".to_owned(),
            FfiError::Syscall { stage, errno } => {
                let mut out = (*stage).to_owned();
                out.append(": errno ");
                push_dec_int(&mut out, *errno as i64);
                out
            },
            FfiError::Interface(m) => {
                let mut out = "interface: ".to_owned();
                out.append(m.as_str());
                out
            },
        }
    }
}

/// The error numbers that a platform gives to calls worth repeating.
#[derive(Debug, Clone, Copy)]
pub struct RetryErrnos {
    pub again: i32,
    pub would_block: i32,
    pub interrupted: i32,
}

/// Whether `errno` only asks for another try: the wait ran out or a signal came.
pub fn is_retry_errno(errno: i32, codes: RetryErrnos) -> (r: bool)
    ensures
        r == (errno == codes.again || errno == codes.would_block || errno == codes.interrupted),
{
    errno == codes.again || errno == codes.would_block || errno == codes.interrupted
}

/// The index of the interface `iface`, for which the system gave `index`; 0 means that there is no
/// such interface. The system cannot be asked for a name with a zero character in it.
pub fn iface_index(iface: &str, index: u32) -> (r: Result<u32, FfiError>)
    ensures
        match r {
            Ok(i) => text::find(iface@, '\0') is None && index != 0 && i == index,
            Err(FfiError::Interface(m)) => if text::find(iface@, '\0') is Some {
                m@ == "name "@ + iface@ + " contains NUL"@
            } else {
                index == 0 && m@ == "if_nametoindex("@ + iface@ + ") failed"@
            },
            Err(_) => false,
        },
{
    if find_char(chars_of(iface).as_slice(), '\0').is_some() {
        let mut m = "name ".to_owned();
        m.append(iface);
        m.append(" contains NUL");
        return Err(FfiError::Interface(m));
    }
    if index == 0 {
        let mut m = "if_nametoindex(".to_owned();
        m.append(iface);
        m.append(") failed");
        return Err(FfiError::Interface(m));
    }
    Ok(index)
}

/// The error for a read from a packet socket that failed with `errno`.
pub fn recv_failure(errno: i32, codes: RetryErrnos) -> (e: FfiError)
    ensures
        e matches FfiError::Syscall { stage, errno: n } && n == errno && stage@ == (if errno
            == codes.again || errno == codes.would_block || errno == codes.interrupted {
            "recvfrom-retry"@
        } else {
            "recvfrom"@
        }),
{
    if is_retry_errno(errno, codes) {
        FfiError::Syscall { stage: "recvfrom-retry", errno }
    } else {
        FfiError::Syscall { stage: "recvfrom", errno }
    }
}

/// What to do about a failed read from a packet socket.
#[derive(Debug, Clone, Copy, PartialEq, Eq, Structural)]
pub enum ReadFailed {
    /// Read again.
    Again,
    /// Stop without an error.
    Stop,
    /// Stop with the error.
    Fail,
}

/// What to do about a failed read from a packet socket, where `closing` says that the listener is
/// shutting down.
pub fn after_read_failure(e: &FfiError, codes: RetryErrnos, closing: bool) -> (r: ReadFailed)
    ensures
        r == (if e matches FfiError::Syscall { errno, .. } && (errno == codes.again || errno
            == codes.would_block || errno == codes.interrupted) {
            ReadFailed::Again
        } else if closing {
            ReadFailed::Stop
        } else {
            ReadFailed::Fail
        }),
{
    if let FfiError::Syscall { errno, .. } = e {
        if is_retry_errno(*errno, codes) {
            return ReadFailed::Again;
        }
    }
    if closing {
        ReadFailed::Stop
    } else {
        ReadFailed::Fail
    }
}

} // verus!
