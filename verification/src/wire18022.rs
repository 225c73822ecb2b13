//! Frames on TCP port 18022: a six-byte head and a text `req=<number>&query=<body>`.

use vstd::prelude::*;
use vstd::slice::{slice_subrange, slice_to_vec};

use crate::text;
use crate::text::parse_i64;

verus! {

/// The length of the head: two magic bytes, the length of the text with the low byte first, and
/// two reserved bytes.
pub const HEAD_SIZE: usize = 6;

/// Whether `&query=` or `&query*` stands in `b` at `i`.
pub open spec fn query_stands(b: Seq<u8>, i: int) -> bool {
    &&& 0 <= i
    &&& i + 7 <= b.len()
    &&& b.subrange(i, i + 6) == seq![0x26u8, 0x71, 0x75, 0x65, 0x72, 0x79]
    &&& (b[i + 6] == 0x3d || b[i + 6] == 0x2a)
}

/// The first place from `i` on at which `&query=` or `&query*` stands.
pub open spec fn query_at(b: Seq<u8>, i: int) -> Option<int>
    decreases b.len() - i,
{
    if i < 0 || i >= b.len() {
        None
    } else if query_stands(b, i) {
        Some(i)
    } else {
        query_at(b, i + 1)
    }
}

/// Bytes as the characters of the same value.
pub open spec fn byte_chars(b: Seq<u8>) -> Seq<char> {
    Seq::new(b.len(), |i: int| b[i] as char)
}

/// The request number and the body that a text holds.
pub open spec fn text_parts(b: Seq<u8>) -> Option<(i64, Seq<u8>)> {
    if b.len() < 4 || b.take(4) != seq![0x72u8, 0x65, 0x71, 0x3d] {
        None
    } else {
        match query_at(b, 4) {
            None => None,
            Some(i) => match text::int_value(byte_chars(b.subrange(4, i))) {
                Some(n) => if i64::MIN <= n <= i64::MAX {
                    Some((n as i64, b.skip(i + 7)))
                } else {
                    None
                },
                None => None,
            },
        }
    }
}

/// The request number and the body that a frame holds. Bytes beyond the length that the head
/// gives do not count.
pub open spec fn frame_parts(p: Seq<u8>) -> Option<(i64, Seq<u8>)> {
    if p.len() < HEAD_SIZE || p[0] != 0x07 || p[1] != 0xb8 || p.len() < HEAD_SIZE + p[2] + p[3] * 256 {
        None
    } else {
        text_parts(p.subrange(6, 6 + p[2] + p[3] * 256))
    }
}

fn query_here(b: &[u8], i: usize) -> (r: bool)
    requires
        i < b@.len(),
    ensures
        r == query_stands(b@, i as int),
{
    if b.len() - i < 7 {
        return false;
    }
    let r = b[i] == 0x26 && b[i + 1] == 0x71 && b[i + 2] == 0x75 && b[i + 3] == 0x65 && b[i + 4]
        == 0x72 && b[i + 5] == 0x79;
    proof {
        let s = b@.subrange(i as int, i + 6);
        let q = seq![0x26u8, 0x71, 0x75, 0x65, 0x72, 0x79];
        if r {
            assert(s =~= q);
        } else {
            assert(s[0] == b@[i as int] && s[1] == b@[i + 1] && s[2] == b@[i + 2] && s[3] == b@[i
                + 3] && s[4] == b@[i + 4] && s[5] == b@[i + 5]);
            assert(q[0] == 0x26 && q[1] == 0x71 && q[2] == 0x75 && q[3] == 0x65 && q[4] == 0x72
                && q[5] == 0x79);
        }
    }
    r && (b[i + 6] == 0x3d || b[i + 6] == 0x2a)
}

fn find_query(b: &[u8], start: usize) -> (r: Option<usize>)
    requires
        start <= b@.len(),
    ensures
        match r {
            Some(i) => query_at(b@, start as int) == Some(i as int) && start <= i && i + 7
                <= b@.len(),
            None => query_at(b@, start as int) is None,
        },
{
    let mut i: usize = start;
    while i < b.len()
        invariant
            start <= i <= b@.len(),
            query_at(b@, start as int) == query_at(b@, i as int),
        decreases b@.len() - i,
    {
        if query_here(b, i) {
            return Some(i);
        }
        i = i + 1;
    }
    None
}

fn parse_text(b: &[u8]) -> (r: Option<(i64, Vec<u8>)>)
    ensures
        match r {
            Some((n, body)) => text_parts(b@) == Some((n, body@)),
            None => text_parts(b@) is None,
        },
{
    if b.len() < 4 {
        return None;
    }
    let named = b[0] == 0x72 && b[1] == 0x65 && b[2] == 0x71 && b[3] == 0x3d;
    proof {
        let s = b@.take(4);
        let q = seq![0x72u8, 0x65, 0x71, 0x3d];
        if named {
            assert(s =~= q);
        } else {
            assert(s[0] == b@[0] && s[1] == b@[1] && s[2] == b@[2] && s[3] == b@[3]);
            assert(q[0] == 0x72 && q[1] == 0x65 && q[2] == 0x71 && q[3] == 0x3d);
        }
    }
    if !named {
        return None;
    }
    match find_query(b, 4) {
        None => None,
        Some(at) => {
            let mut cs: Vec<char> = Vec::new();
            let mut i: usize = 4;
            while i < at
                invariant
                    4 <= i <= at < b@.len(),
                    cs@ == byte_chars(b@.subrange(4, i as int)),
                decreases at - i,
            {
                cs.push(b[i] as char);
                i = i + 1;
                assert(cs@ =~= byte_chars(b@.subrange(4, i as int)));
            }
            match parse_i64(cs.as_slice()) {
                None => None,
                Some(n) => {
                    let body = slice_to_vec(slice_subrange(b, at + 7, b.len()));
                    assert(body@ =~= b@.skip(at + 7));
                    Some((n, body))
                },
            }
        },
    }
}

/// Reads the request number and the body of a frame.
pub fn parse_response_frame(payload: &[u8]) -> (r: Option<(i64, Vec<u8>)>)
    ensures
        match r {
            Some((n, body)) => frame_parts(payload@) == Some((n, body@)),
            None => frame_parts(payload@) is None,
        },
{
    if payload.len() < HEAD_SIZE || payload[0] != 0x07 || payload[1] != 0xb8 {
        return None;
    }
    let len: usize = payload[2] as usize + payload[3] as usize * 256;
    if payload.len() - HEAD_SIZE < len {
        return None;
    }
    parse_text(slice_subrange(payload, HEAD_SIZE, HEAD_SIZE + len))
}

} // verus!
