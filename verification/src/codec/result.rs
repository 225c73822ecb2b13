//! Result codes reported to callers.

use vstd::prelude::*;

verus! {

pub const OK: i32 = 0;
pub const NO_CHANGE: i32 = 1;
pub const PARTIAL: i32 = 7;
pub const NOT_RUN: i32 = 8;
pub const ERR: i32 = -1;
pub const INVALID: i32 = -2;
pub const TIMEOUT: i32 = -5;
pub const NOT_FOUND: i32 = -6;
pub const UNSUPPORT: i32 = -8;
pub const LEN_LIMIT: i32 = -9;
pub const NO_CONFIG: i32 = -100;
pub const LOGIN_FAIL: i32 = -101;
pub const PCAP_FAIL: i32 = -102;
pub const NO_RING: i32 = -103;
pub const FILE_READ: i32 = -302;
pub const FILE_WRITE: i32 = -303;
pub const IP_UNREACH: i32 = 1100;
pub const IP_OK: i32 = 1101;
pub const IP_BUSY: i32 = 1102;
pub const IP_CONFLICT: i32 = 1103;
pub const NET_ERR: i32 = 1001;
pub const CONN_FAIL: i32 = 1002;
pub const CONN_TIME: i32 = 1003;
pub const DNS_FAIL: i32 = 1004;
pub const TLS_ERR: i32 = 1005;
pub const NET_OK: i32 = 2000;
pub const NO_RETURN: i32 = 2001;
pub const AUTH_ERR: i32 = 4000;
pub const AUTH_FAIL: i32 = 4001;
pub const AUTH_DENY: i32 = 4002;

} // verus!
