//! The packet filters of the listeners, and what they let through.

use vstd::prelude::*;

use crate::ffi::SockFilter;
use crate::listen18022;
use crate::listen6672;

verus! {

// ---------------------------------------------------------------------------
// The programs
// ---------------------------------------------------------------------------

/// An instruction.
pub open spec fn op(code: u16, jt: u8, jf: u8, k: u32) -> SockFilter {
    SockFilter { code, jt, jf, k }
}

/// The filter "udp dst port 6672".
pub open spec fn udp_program() -> Seq<SockFilter> {
    seq![
        op(0x28, 0, 0, 12),
        op(0x15, 0, 8, 0x800),
        op(0x30, 0, 0, 23),
        op(0x15, 0, 6, 17),
        op(0x28, 0, 0, 20),
        op(0x45, 4, 0, 0x3fff),
        op(0xb1, 0, 0, 14),
        op(0x48, 0, 0, 16),
        op(0x15, 0, 1, 6672),
        op(0x06, 0, 0, 0xffff),
        op(0x06, 0, 0, 0),
    ]
}

/// The filter "tcp port 18022".
pub open spec fn tcp_program() -> Seq<SockFilter> {
    seq![
        op(0x28, 0, 0, 12),
        op(0x15, 0, 10, 0x800),
        op(0x30, 0, 0, 23),
        op(0x15, 0, 8, 6),
        op(0x28, 0, 0, 20),
        op(0x45, 6, 0, 0x3fff),
        op(0xb1, 0, 0, 14),
        op(0x48, 0, 0, 14),
        op(0x15, 2, 0, 18022),
        op(0x48, 0, 0, 16),
        op(0x15, 0, 1, 18022),
        op(0x06, 0, 0, 0xffff),
        op(0x06, 0, 0, 0),
    ]
}

fn ins(code: u16, jt: u8, jf: u8, k: u32) -> (f: SockFilter)
    ensures
        f == op(code, jt, jf, k),
{
    SockFilter { code, jt, jf, k }
}

/// The filter "udp dst port 6672".
pub fn bpf_6672() -> (p: [SockFilter; 11])
    ensures
        p@ == udp_program(),
{
    let p: [SockFilter; 11] = [
        ins(0x0028, 0, 0, 0x0000000c),  // ether type
        ins(0x0015, 0, 8, 0x00000800),  // IPv4, else drop
        ins(0x0030, 0, 0, 0x00000017),  // protocol
        ins(0x0015, 0, 6, 0x00000011),  // UDP, else drop
        ins(0x0028, 0, 0, 0x00000014),  // flags and fragment offset
        ins(0x0045, 4, 0, 0x00003fff),  // drop fragments
        ins(0x00b1, 0, 0, 0x0000000e),  // length of the IP header
        ins(0x0048, 0, 0, 0x00000010),  // destination port
        ins(0x0015, 0, 1, 0x00001a10),  // 6672, else drop
        ins(0x0006, 0, 0, 0x0000ffff),  // accept
        ins(0x0006, 0, 0, 0x00000000),  // drop
    ];
    assert(p@ =~= udp_program());
    p
}

/// The filter "tcp port 18022": either port counts.
pub fn bpf_18022() -> (p: [SockFilter; 13])
    ensures
        p@ == tcp_program(),
{
    let p: [SockFilter; 13] = [
        ins(0x0028, 0, 0, 0x0000000c),  // ether type
        ins(0x0015, 0, 10, 0x00000800),  // IPv4, else drop
        ins(0x0030, 0, 0, 0x00000017),  // protocol
        ins(0x0015, 0, 8, 0x00000006),  // TCP, else drop
        ins(0x0028, 0, 0, 0x00000014),  // flags and fragment offset
        ins(0x0045, 6, 0, 0x00003fff),  // drop fragments
        ins(0x00b1, 0, 0, 0x0000000e),  // length of the IP header
        ins(0x0048, 0, 0, 0x0000000e),  // source port
        ins(0x0015, 2, 0, 0x00004666),  // 18022: accept
        ins(0x0048, 0, 0, 0x00000010),  // destination port
        ins(0x0015, 0, 1, 0x00004666),  // 18022, else drop
        ins(0x0006, 0, 0, 0x0000ffff),  // accept
        ins(0x0006, 0, 0, 0x00000000),  // drop
    ];
    assert(p@ =~= tcp_program());
    p
}

// ---------------------------------------------------------------------------
// What they do
// ---------------------------------------------------------------------------

/// The two bytes of `pkt` from `at` on as a number, high byte first.
pub open spec fn half_word(pkt: Seq<u8>, at: int) -> u32 {
    (pkt[at] * 256 + pkt[at + 1]) as u32
}

/// How many bytes of `pkt` the program `prog` lets through from the instruction `pc` on, with
/// `a` and `x` in its registers. A load beyond the end of the packet, an unknown instruction and
/// running off the end all drop the packet.
pub open spec fn passes(prog: Seq<SockFilter>, pc: int, a: u32, x: u32, pkt: Seq<u8>) -> u32
    decreases
            if pc < prog.len() {
                prog.len() - pc
            } else {
                0
            },
{
    let f = prog[pc];
    if pc < 0 || pc >= prog.len() {
        0
    } else if f.code == 0x28 {
        if f.k + 2 > pkt.len() {
            0
        } else {
            passes(prog, pc + 1, half_word(pkt, f.k as int), x, pkt)
        }
    } else if f.code == 0x30 {
        if f.k + 1 > pkt.len() {
            0
        } else {
            passes(prog, pc + 1, pkt[f.k as int] as u32, x, pkt)
        }
    } else if f.code == 0x48 {
        if x + f.k + 2 > pkt.len() {
            0
        } else {
            passes(prog, pc + 1, half_word(pkt, x + f.k), x, pkt)
        }
    } else if f.code == 0xb1 {
        if f.k + 1 > pkt.len() {
            0
        } else {
            passes(prog, pc + 1, a, (pkt[f.k as int] % 16 * 4) as u32, pkt)
        }
    } else if f.code == 0x15 {
        passes(prog, pc + 1 + (if a == f.k { f.jt } else { f.jf }), a, x, pkt)
    } else if f.code == 0x45 {
        passes(prog, pc + 1 + (if a & f.k != 0 { f.jt } else { f.jf }), a, x, pkt)
    } else if f.code == 0x06 {
        f.k
    } else {
        0
    }
}

/// Whether `pkt` is an Ethernet frame with an unfragmented IPv4 packet of the protocol `proto`.
pub open spec fn carries(pkt: Seq<u8>, proto: u8) -> bool {
    &&& pkt.len() >= 24
    &&& half_word(pkt, 12) == 0x800
    &&& pkt[23] == proto
    &&& half_word(pkt, 20) % 0x4000 == 0
}

/// Where the IP payload of `pkt` starts.
pub open spec fn payload_start(pkt: Seq<u8>) -> int {
    14 + pkt[14] % 16 * 4
}

proof fn lemma_fragment_bits(a: u32)
    ensures
        (a & 0x3fff != 0) == (a % 0x4000 != 0),
{
    assert((a & 0x3fff != 0) == (a % 0x4000 != 0)) by (bit_vector);
}

/// The UDP filter lets through, in full, exactly the unfragmented UDP packets for port 6672.
pub proof fn law_udp_filter(pkt: Seq<u8>)
    ensures
        passes(udp_program(), 0, 0, 0, pkt) == (if carries(pkt, 17) && pkt.len() >= payload_start(
            pkt,
        ) + 4 && half_word(pkt, payload_start(pkt) + 2) == 6672 {
            0xffffu32
        } else {
            0
        }),
{
    reveal_with_fuel(passes, 12);
    lemma_fragment_bits(half_word(pkt, 20));
}

/// The TCP filter lets through, in full, exactly the unfragmented TCP packets from or to port
/// 18022. One to that port has to reach to the end of its destination port.
pub proof fn law_tcp_filter(pkt: Seq<u8>)
    ensures
        passes(tcp_program(), 0, 0, 0, pkt) == (if carries(pkt, 6) && pkt.len() >= payload_start(
            pkt,
        ) + 2 && (half_word(pkt, payload_start(pkt)) == 18022 || (pkt.len() >= payload_start(pkt)
            + 4 && half_word(pkt, payload_start(pkt) + 2) == 18022)) {
            0xffffu32
        } else {
            0
        }),
{
    reveal_with_fuel(passes, 14);
    lemma_fragment_bits(half_word(pkt, 20));
}

/// No payload is lost to the UDP filter: what carries one for port 6672 and is not a fragment
/// passes.
pub proof fn law_udp_payload_passes(pkt: Seq<u8>)
    requires
        listen6672::udp_parts(pkt) is Some,
        half_word(pkt, payload_start(pkt) + 2) == 6672,
        half_word(pkt, 20) % 0x4000 == 0,
    ensures
        passes(udp_program(), 0, 0, 0, pkt) == 0xffff,
{
    law_udp_filter(pkt);
}

/// No payload is lost to the TCP filter: what carries one from or to port 18022 and is not a
/// fragment passes.
pub proof fn law_tcp_payload_passes(pkt: Seq<u8>)
    requires
        listen18022::tcp_parts(pkt) matches Some((_, _, _, sp, dp)) && (sp == 18022 || dp == 18022),
        half_word(pkt, 20) % 0x4000 == 0,
    ensures
        passes(tcp_program(), 0, 0, 0, pkt) == 0xffff,
{
    law_tcp_filter(pkt);
}

/// Every jump of either filter lands inside it.
pub proof fn law_jumps_stay_inside(i: int)
    ensures
        0 <= i < udp_program().len() && udp_program()[i].code % 8 == 5 ==> i + 1
            + udp_program()[i].jt < udp_program().len() && i + 1 + udp_program()[i].jf
            < udp_program().len(),
        0 <= i < tcp_program().len() && tcp_program()[i].code % 8 == 5 ==> i + 1
            + tcp_program()[i].jt < tcp_program().len() && i + 1 + tcp_program()[i].jf
            < tcp_program().len(),
{
}

} // verus!
