//! Filters and byte order.

use dooraccess_rs::bpf::{bpf_18022, bpf_6672};
use dooraccess_rs::ffi::{
    after_read_failure, htons, iface_index, is_retry_errno, recv_failure, FfiError, ReadFailed,
    RetryErrnos, SockFilter,
};

fn assert_jumps_in_bounds(prog: &[SockFilter]) {
    let len = prog.len();
    for (idx, f) in prog.iter().enumerate() {
        let is_jump = (f.code & 0x07) == 0x05;
        if is_jump {
            let max_off = (len - 1 - idx) as u8;
            assert!(
                f.jt <= max_off,
                "idx {idx}: jt={} exceeds bound {max_off}",
                f.jt
            );
            assert!(
                f.jf <= max_off,
                "idx {idx}: jf={} exceeds bound {max_off}",
                f.jf
            );
        }
    }
}

#[test]
fn bpf_6672_jumps_in_bounds() {
    assert_eq!(bpf_6672().len(), 11);
    assert_jumps_in_bounds(&bpf_6672());
}

#[test]
fn bpf_18022_jumps_in_bounds() {
    assert_eq!(bpf_18022().len(), 13);
    assert_jumps_in_bounds(&bpf_18022());
}

#[test]
fn port_constants_baked_correctly() {
    assert_eq!(bpf_6672()[8].k, 6672);
    assert_eq!(bpf_18022()[8].k, 18022);
    assert_eq!(bpf_18022()[10].k, 18022);
}

#[test]
fn instructions_are_as_assembled() {
    let ops: Vec<(u16, u8, u8, u32)> = bpf_6672()
        .iter()
        .map(|f| (f.code, f.jt, f.jf, f.k))
        .collect();
    assert_eq!(
        ops,
        [
            (0x0028, 0, 0, 0x0000000c),
            (0x0015, 0, 8, 0x00000800),
            (0x0030, 0, 0, 0x00000017),
            (0x0015, 0, 6, 0x00000011),
            (0x0028, 0, 0, 0x00000014),
            (0x0045, 4, 0, 0x00003fff),
            (0x00b1, 0, 0, 0x0000000e),
            (0x0048, 0, 0, 0x00000010),
            (0x0015, 0, 1, 0x00001a10),
            (0x0006, 0, 0, 0x0000ffff),
            (0x0006, 0, 0, 0x00000000),
        ]
    );
}

#[test]
fn htons_matches_platform_semantics() {
    let got = htons(0x0003);
    if 1u16.to_ne_bytes() == [1, 0] {
        assert_eq!(got, 0x0300, "little-endian: bytes are swapped");
    } else {
        assert_eq!(got, 0x0003, "big-endian: nothing changes");
    }
    assert_eq!(htons(0x0800), 0x0800u16.to_be());
    assert_eq!(htons(0xabcd), 0xabcdu16.to_be());
    assert_eq!(htons(htons(0xabcd)), 0xabcd);
}

#[test]
fn sock_filter_field_widths() {
    assert_eq!(core::mem::size_of::<SockFilter>(), 8);
    let f = SockFilter {
        code: 0x0028u16,
        jt: 0u8,
        jf: 0u8,
        k: 0x0000000cu32,
    };
    assert_eq!(f.code, 0x0028);
    assert_eq!(f.k, 0x0000000c);
}

fn codes() -> RetryErrnos {
    RetryErrnos {
        again: libc::EAGAIN,
        would_block: libc::EWOULDBLOCK,
        interrupted: libc::EINTR,
    }
}

#[test]
fn c_int_is_32bit() {
    assert_eq!(core::mem::size_of::<libc::c_int>(), 4);
}

#[test]
fn error_numbers_are_handed_over_as_they_are() {
    let errno: libc::c_int = libc::EAGAIN;
    assert!(is_retry_errno(errno, codes()));
    assert!(is_retry_errno(libc::EINTR, codes()));
    assert!(!is_retry_errno(libc::EBADF, codes()));
}

#[test]
fn failed_reads() {
    let again = recv_failure(libc::EAGAIN, codes());
    assert!(matches!(
        again,
        FfiError::Syscall {
            stage: "recvfrom-retry",
            ..
        }
    ));
    assert_eq!(after_read_failure(&again, codes(), true), ReadFailed::Again);
    let bad = recv_failure(libc::EBADF, codes());
    assert_eq!(
        bad.message(),
        format!("recvfrom: errno {}", libc::EBADF)
    );
    assert_eq!(after_read_failure(&bad, codes(), true), ReadFailed::Stop);
    assert_eq!(after_read_failure(&bad, codes(), false), ReadFailed::Fail);
}

#[test]
fn interface_indexes() {
    assert_eq!(iface_index("eth0", 3).unwrap(), 3);
    assert_eq!(
        iface_index("eth9", 0).unwrap_err().message(),
        "interface: if_nametoindex(eth9) failed"
    );
    assert_eq!(
        iface_index("a\0", 3).unwrap_err().message(),
        "interface: name a\0 contains NUL"
    );
}
