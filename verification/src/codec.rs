//! Field codecs: pseudo-BCD numbers, `name@ip:port` addresses, dotted IPv4.

use vstd::prelude::*;
use vstd::slice::slice_subrange;
use vstd::string::*;
use vstd::utf8::*;

use crate::text;
use crate::text::{
    chars_of, find_char, parse_i64, push_dec, rfind_char, split_chars, string_of,
};

pub mod result;

verus! {

// ---------------------------------------------------------------------------
// Pseudo-BCD
// ---------------------------------------------------------------------------

/// Why a number could not be encoded.
#[derive(Debug, Clone, Copy, PartialEq, Eq)]
pub enum BcdError {
    /// The number is not eight bytes long.
    Length { got: usize },
    /// The byte at `index`, shown as the character of the same value, is no hex digit.
    Format { ch: char, index: usize },
}

/// The value of an ASCII hex digit of either case.
pub open spec fn nibble(c: u8) -> Option<u8> {
    if 0x30 <= c <= 0x39 {
        Some((c - 0x30) as u8)
    } else if 0x61 <= c <= 0x66 {
        Some((c - 0x61 + 10) as u8)
    } else if 0x41 <= c <= 0x46 {
        Some((c - 0x41 + 10) as u8)
    } else {
        None
    }
}

/// The first position from `i` on that holds no hex digit.
pub open spec fn first_bad(s: Seq<u8>, i: int) -> Option<int>
    decreases s.len() - i,
{
    if i < 0 || i >= s.len() {
        None
    } else if nibble(s[i]) is None {
        Some(i)
    } else {
        first_bad(s, i + 1)
    }
}

/// The byte written by the hex digits `hi` and `lo`.
pub open spec fn pair_value(hi: u8, lo: u8) -> int {
    nibble(hi)->0 * 16 + nibble(lo)->0
}

/// The four bytes that a number with the bytes `s` is packed into, or what is wrong with it.
pub open spec fn bcd_value(s: Seq<u8>) -> Result<Seq<u8>, BcdError> {
    if s.len() != 8 {
        Err(BcdError::Length { got: s.len() as usize })
    } else {
        match first_bad(s, 0) {
            Some(i) => Err(BcdError::Format { ch: s[i] as char, index: i as usize }),
            None => Ok(
                seq![
                    pair_value(s[0], s[1]) as u8,
                    pair_value(s[2], s[3]) as u8,
                    pair_value(s[4], s[5]) as u8,
                    pair_value(s[6], s[7]) as u8,
                ],
            ),
        }
    }
}

/// The result of `encode_bcd` with its array as a sequence.
pub open spec fn bcd_view(r: Result<[u8; 4], BcdError>) -> Result<Seq<u8>, BcdError> {
    match r {
        Ok(b) => Ok(b@),
        Err(e) => Err(e),
    }
}

proof fn lemma_first_bad(s: Seq<u8>, i: int, k: int)
    requires
        0 <= i <= k < s.len(),
        nibble(s[k]) is None,
        forall|j: int| i <= j < k ==> nibble(#[trigger] s[j]) is Some,
    ensures
        first_bad(s, i) == Some(k),
    decreases k - i,
{
    if i < k {
        assert(nibble(s[i]) is Some);
        lemma_first_bad(s, i + 1, k);
    }
}

proof fn lemma_no_bad(s: Seq<u8>, i: int)
    requires
        0 <= i <= s.len(),
        forall|j: int| i <= j < s.len() ==> nibble(#[trigger] s[j]) is Some,
    ensures
        first_bad(s, i) is None,
    decreases s.len() - i,
{
    if i < s.len() {
        assert(nibble(s[i]) is Some);
        lemma_no_bad(s, i + 1);
    }
}

proof fn lemma_all_nibbles(s: Seq<u8>, i: int, j: int)
    requires
        0 <= i <= j < s.len(),
        first_bad(s, i) is None,
    ensures
        nibble(s[j]) is Some,
    decreases j - i,
{
    if i < j {
        lemma_all_nibbles(s, i + 1, j);
    }
}

/// The eight lower-case hex digits of four bytes.
pub open spec fn bcd_text(b: Seq<u8>) -> Seq<char> {
    Seq::new(
        8,
        |i: int|
            if i % 2 == 0 {
                text::hex_char(b[i / 2] as int / 16)
            } else {
                text::hex_char(b[i / 2] as int % 16)
            },
    )
}

/// Value of one ASCII hex digit, `None` for any other byte.
pub fn hex_nibble(c: u8) -> (r: Option<u8>)
    ensures
        r == nibble(c),
        r matches Some(v) ==> v < 16,
{
    if 0x30 <= c && c <= 0x39 {
        Some(c - 0x30)
    } else if 0x61 <= c && c <= 0x66 {
        Some(c - 0x61 + 10)
    } else if 0x41 <= c && c <= 0x46 {
        Some(c - 0x41 + 10)
    } else {
        None
    }
}

fn pack(hi: u8, lo: u8) -> (b: u8)
    requires
        hi < 16,
        lo < 16,
    ensures
        b == hi * 16 + lo,
{
    assert((hi << 4) | lo == hi * 16 + lo) by (bit_vector)
        requires
            hi < 16,
            lo < 16,
    ;
    (hi << 4) | lo
}

/// Packs an eight-digit number into four bytes, two hex digits to a byte.
pub fn encode_bcd(num_str: &str) -> (r: Result<[u8; 4], BcdError>)
    ensures
        bcd_view(r) == bcd_value(num_str.spec_bytes()),
{
    let bytes = num_str.as_bytes();
    if bytes.len() != 8 {
        return Err(BcdError::Length { got: bytes.len() });
    }
    let mut digits: Vec<u8> = Vec::new();
    let mut i: usize = 0;
    while i < 8
        invariant
            i <= 8,
            bytes@ == num_str.spec_bytes(),
            bytes@.len() == 8,
            digits@.len() == i,
            forall|j: int| 0 <= j < i ==> nibble(#[trigger] bytes@[j]) == Some(digits@[j]),
            forall|j: int| 0 <= j < i ==> #[trigger] digits@[j] < 16,
        decreases 8 - i,
    {
        match hex_nibble(bytes[i]) {
            Some(v) => digits.push(v),
            None => {
                proof {
                    lemma_first_bad(bytes@, 0, i as int);
                }
                return Err(BcdError::Format { ch: bytes[i] as char, index: i });
            },
        }
        i += 1;
    }
    proof {
        lemma_no_bad(bytes@, 0);
        assert(forall|j: int| 0 <= j < 8 ==> nibble(#[trigger] bytes@[j]) == Some(digits@[j]));
        assert(nibble(bytes@[0]) == Some(digits@[0]) && nibble(bytes@[1]) == Some(digits@[1]));
        assert(nibble(bytes@[2]) == Some(digits@[2]) && nibble(bytes@[3]) == Some(digits@[3]));
        assert(nibble(bytes@[4]) == Some(digits@[4]) && nibble(bytes@[5]) == Some(digits@[5]));
        assert(nibble(bytes@[6]) == Some(digits@[6]) && nibble(bytes@[7]) == Some(digits@[7]));
    }
    let out: [u8; 4] = [
        pack(digits[0], digits[1]),
        pack(digits[2], digits[3]),
        pack(digits[4], digits[5]),
        pack(digits[6], digits[7]),
    ];
    assert(out@ =~= bcd_value(bytes@)->Ok_0);
    Ok(out)
}

/// Unpacks four bytes into eight lower-case hex digits.
pub fn decode_bcd(b: [u8; 4]) -> (out: String)
    ensures
        out@ == bcd_text(b@),
{
    let mut out = String::new();
    let mut i: usize = 0;
    while i < 4
        invariant
            i <= 4,
            out@ == bcd_text(b@).take(2 * i),
        decreases 4 - i,
    {
        let v: u8 = b[i];
        let hi: u8 = v / 16;
        let lo: u8 = v % 16;
        out.push(if hi < 10 { (48u8 + hi) as char } else { (87u8 + hi) as char });
        out.push(if lo < 10 { (48u8 + lo) as char } else { (87u8 + lo) as char });
        i += 1;
        assert(bcd_text(b@).take(2 * i) =~= bcd_text(b@).take(2 * i - 2).push(
            bcd_text(b@)[2 * i - 2],
        ).push(bcd_text(b@)[2 * i - 1]));
    }
    assert(bcd_text(b@).take(8) =~= bcd_text(b@));
    out
}

/// A hex digit is ASCII and has its value.
proof fn lemma_hex_digit(d: int)
    requires
        0 <= d < 16,
    ensures
        '\0' <= text::hex_char(d) <= '\u{7f}',
        nibble(text::hex_char(d) as u8) == Some(d as u8),
{
}

/// The two digits of a byte stand for the byte.
proof fn lemma_digits_of(v: u8)
    ensures
        nibble(text::hex_char(v as int / 16) as u8) is Some,
        nibble(text::hex_char(v as int % 16) as u8) is Some,
        pair_value(
            text::hex_char(v as int / 16) as u8,
            text::hex_char(v as int % 16) as u8,
        ) == v,
{
    lemma_hex_digit(v as int / 16);
    lemma_hex_digit(v as int % 16);
}

proof fn lemma_digits_ascii(b: Seq<u8>)
    requires
        b.len() == 4,
    ensures
        is_ascii_chars(bcd_text(b)),
{
    let t = bcd_text(b);
    assert forall|j: int| 0 <= j < t.len() implies '\0' <= #[trigger] t[j] <= '\u{7f}' by {
        let v = b[j / 2] as int;
        lemma_hex_digit(v / 16);
        lemma_hex_digit(v % 16);
    }
}

/// Unpacking four bytes and packing the digits again gives the four bytes back.
pub proof fn law_encode_after_decode(b: [u8; 4])
    ensures
        bcd_value(encode_utf8(bcd_text(b@))) == Ok::<Seq<u8>, BcdError>(b@),
{
    let t = bcd_text(b@);
    lemma_digits_ascii(b@);
    is_ascii_chars_encode_utf8(t);
    let s = encode_utf8(t);
    lemma_digits_of(b@[0]);
    lemma_digits_of(b@[1]);
    lemma_digits_of(b@[2]);
    lemma_digits_of(b@[3]);
    assert(s[0] == t[0] as u8 && s[1] == t[1] as u8 && s[2] == t[2] as u8 && s[3] == t[3] as u8);
    assert(s[4] == t[4] as u8 && s[5] == t[5] as u8 && s[6] == t[6] as u8 && s[7] == t[7] as u8);
    assert forall|j: int| 0 <= j < 8 implies nibble(#[trigger] s[j]) is Some by {
        lemma_digits_of(b@[j / 2]);
        assert(s[j] == t[j] as u8);
    }
    lemma_no_bad(s, 0);
    assert(bcd_value(s)->Ok_0 =~= b@);
}

/// The lower case of an ASCII letter, as bytes.
pub open spec fn lower_byte(c: u8) -> u8 {
    if 0x41 <= c <= 0x5a {
        (c + 32) as u8
    } else {
        c
    }
}

proof fn lemma_pair_text(hi: u8, lo: u8)
    requires
        nibble(hi) is Some,
        nibble(lo) is Some,
    ensures
        text::hex_char(pair_value(hi, lo) / 16) as u8 == lower_byte(hi),
        text::hex_char(pair_value(hi, lo) % 16) as u8 == lower_byte(lo),
{
}

/// Packing a number and unpacking it again gives the number in lower case.
pub proof fn law_decode_after_encode(s: Seq<u8>)
    requires
        bcd_value(s) is Ok,
    ensures
        encode_utf8(bcd_text(bcd_value(s)->Ok_0)) == s.map_values(|c: u8| lower_byte(c)),
{
    let out = bcd_value(s)->Ok_0;
    let t = bcd_text(out);
    lemma_digits_ascii(out);
    is_ascii_chars_encode_utf8(t);
    let e = encode_utf8(t);
    assert forall|k: int| 0 <= k < 4 implies #[trigger] e[2 * k] == lower_byte(s[2 * k]) && e[2 * k
        + 1] == lower_byte(s[2 * k + 1]) by {
        lemma_all_nibbles(s, 0, 2 * k);
        lemma_all_nibbles(s, 0, 2 * k + 1);
        assert(out[k] as int == pair_value(s[2 * k], s[2 * k + 1]));
        lemma_pair_text(s[2 * k], s[2 * k + 1]);
        assert((2 * k) / 2 == k && (2 * k + 1) / 2 == k);
    }
    assert forall|j: int| 0 <= j < 8 implies e[j] == lower_byte(s[j]) by {
        let k = j / 2;
        assert(e[2 * k] == lower_byte(s[2 * k]));
    }
    assert(e =~= s.map_values(|c: u8| lower_byte(c)));
}

// ---------------------------------------------------------------------------
// Dotted IPv4
// ---------------------------------------------------------------------------

/// The octet that `s` writes: one to three digits, no leading zero, at most 255.
pub open spec fn octet_value(s: Seq<char>) -> Option<u8> {
    if text::all_digits(s) && s.len() <= 3 && (s[0] != '0' || s.len() == 1) && text::digits_value(s) <= 255 {
        Some(text::digits_value(s) as u8)
    } else {
        None
    }
}

/// The address that `s` writes: four octets with dots between them.
pub open spec fn ipv4_value(s: Seq<char>) -> Option<Seq<u8>> {
    let p = text::split(s, '.');
    if p.len() == 4 && octet_value(p[0]) is Some && octet_value(p[1]) is Some && octet_value(p[2])
        is Some && octet_value(p[3]) is Some {
        Some(
            seq![
                octet_value(p[0])->0,
                octet_value(p[1])->0,
                octet_value(p[2])->0,
                octet_value(p[3])->0,
            ],
        )
    } else {
        None
    }
}

pub fn parse_octet(cs: &[char]) -> (r: Option<u8>)
    ensures
        r == octet_value(cs@),
{
    if cs.len() == 0 || cs.len() > 3 {
        return None;
    }
    let mut v: u32 = 0;
    let mut i: usize = 0;
    assert(cs@.take(0) =~= Seq::<char>::empty());
    while i < cs.len()
        invariant
            i <= cs.len(),
            cs.len() <= 3,
            i == 0 ==> v == 0,
            i == 1 ==> v <= 9,
            i == 2 ==> v <= 99,
            i == 3 ==> v <= 999,
            v == text::digits_value(cs@.take(i as int)),
            forall|j: int| 0 <= j < i ==> text::is_digit(#[trigger] cs@[j]),
        decreases cs.len() - i,
    {
        let c = cs[i];
        if c < '0' || c > '9' {
            assert(!text::is_digit(cs@[i as int]));
            return None;
        }
        assert(cs@.take(i + 1).drop_last() =~= cs@.take(i as int));
        assert(cs@.take(i + 1).last() == c);
        v = v * 10 + (c as u32 - 48);
        i += 1;
    }
    assert(cs@.take(i as int) =~= cs@);
    if (cs[0] == '0' && cs.len() != 1) || v > 255 {
        None
    } else {
        Some(v as u8)
    }
}

/// Reads a dotted IPv4 address.
pub fn parse_ipv4_chars(cs: &[char]) -> (r: Option<[u8; 4]>)
    ensures
        match r {
            Some(a) => ipv4_value(cs@) == Some(a@),
            None => ipv4_value(cs@) is None,
        },
{
    let parts = split_chars(cs, '.');
    let ghost p = text::split(cs@, '.');
    assert(text::views(parts@) == p);
    assert(parts@.len() == p.len());
    if parts.len() != 4 {
        return None;
    }
    assert(forall|i: int| 0 <= i < 4 ==> (#[trigger] parts@[i])@ == p[i]);
    match (
        parse_octet(parts[0].as_slice()),
        parse_octet(parts[1].as_slice()),
        parse_octet(parts[2].as_slice()),
        parse_octet(parts[3].as_slice()),
    ) {
        (Some(a), Some(b), Some(c), Some(d)) => {
            let out: [u8; 4] = [a, b, c, d];
            assert(out@ =~= seq![a, b, c, d]);
            Some(out)
        },
        _ => None,
    }
}

/// An address in dotted form.
pub open spec fn ip_text(ip: Seq<u8>) -> Seq<char> {
    text::dec(ip[0] as nat) + "."@ + text::dec(ip[1] as nat) + "."@ + text::dec(ip[2] as nat)
        + "."@ + text::dec(ip[3] as nat)
}

/// Appends an address in dotted form.
pub fn push_ip(out: &mut String, ip: [u8; 4])
    ensures
        final(out)@ == old(out)@ + ip_text(ip@),
{
    push_dec(out, ip[0] as u64);
    out.append(".");
    push_dec(out, ip[1] as u64);
    out.append(".");
    push_dec(out, ip[2] as u64);
    out.append(".");
    push_dec(out, ip[3] as u64);
    assert(out@ =~= old(out)@ + ip_text(ip@));
}

/// What one octet is written as.
proof fn lemma_octet(b: u8)
    ensures
        octet_value(text::dec(b as nat)) == Some(b),
        forall|i: int| 0 <= i < text::dec(b as nat).len() ==> text::dec(b as nat)[i] != '.',
{
    reveal_with_fuel(text::dec, 3);
    reveal_with_fuel(text::digits_value, 4);
    let t = text::dec(b as nat);
    if b >= 100 {
        assert(t.drop_last() =~= text::dec((b / 10) as nat));
        assert(t.drop_last().drop_last() =~= text::dec((b / 100) as nat));
    } else if b >= 10 {
        assert(t.drop_last() =~= text::dec((b / 10) as nat));
    }
}

/// An address in dotted form reads back as itself.
pub proof fn law_ip_text_reads_back(ip: Seq<u8>)
    requires
        ip.len() == 4,
    ensures
        ipv4_value(ip_text(ip)) == Some(ip),
{
    reveal_strlit(".");
    let d = |i: int| text::dec(ip[i] as nat);
    lemma_octet(ip[0]);
    lemma_octet(ip[1]);
    lemma_octet(ip[2]);
    lemma_octet(ip[3]);
    let r2 = d(2).push('.') + d(3);
    let r1 = d(1).push('.') + r2;
    assert(ip_text(ip) =~= d(0).push('.') + r1);
    text::lemma_split_at(d(0), '.', r1);
    text::lemma_split_at(d(1), '.', r2);
    text::lemma_split_at(d(2), '.', d(3));
    text::lemma_find_none(d(3), '.');
    assert(text::split(d(3), '.') =~= seq![d(3)]);
    assert(text::split(ip_text(ip), '.') =~= seq![d(0), d(1), d(2), d(3)]);
    assert(ipv4_value(ip_text(ip))->0 =~= ip);
}

// ---------------------------------------------------------------------------
// name@ip:port
// ---------------------------------------------------------------------------

/// Why an address could not be split.
#[derive(Debug, Clone, Copy, PartialEq, Eq)]
pub enum UriError {
    /// No `@`, no `:`, or nothing on one side of either.
    Format,
    /// The name is not eight bytes long.
    NameLen { got: usize },
    /// The host is no dotted IPv4 address.
    IPv4Only,
    /// The port is no integer from 1 to 65535.
    Port,
}

/// Position of a separator that has text on both sides.
pub open spec fn inner_position(i: Option<int>, len: nat) -> Option<int> {
    match i {
        Some(k) => if 0 < k < len - 1 {
            Some(k)
        } else {
            None
        },
        None => None,
    }
}

/// The parts of `name@ip:port`, or what is wrong with it. The name ends at the first `@`, the
/// host at the last `:`; the shape is looked at first, then the name, the host and the port.
pub open spec fn uri_parts(u: Seq<char>) -> Result<(Seq<char>, Seq<char>, u16), UriError> {
    match inner_position(text::find(u, '@'), u.len()) {
        None => Err(UriError::Format),
        Some(at) => {
            let name = u.take(at);
            let host_port = u.skip(at + 1);
            match inner_position(text::rfind(host_port, ':'), host_port.len()) {
                None => Err(UriError::Format),
                Some(colon) => {
                    let ip = host_port.take(colon);
                    if encode_utf8(name).len() != 8 {
                        Err(UriError::NameLen { got: encode_utf8(name).len() as usize })
                    } else if ipv4_value(ip) is None {
                        Err(UriError::IPv4Only)
                    } else {
                        match text::int_value(host_port.skip(colon + 1)) {
                            Some(p) => if 1 <= p <= 65535 {
                                Ok((name, ip, p as u16))
                            } else {
                                Err(UriError::Port)
                            },
                            None => Err(UriError::Port),
                        }
                    }
                },
            }
        },
    }
}

/// The result of `parse_uri` with its strings replaced by their contents.
pub open spec fn uri_view(r: Result<(String, String, u16), UriError>) -> Result<
    (Seq<char>, Seq<char>, u16),
    UriError,
> {
    match r {
        Ok((n, i, p)) => Ok((n@, i@, p)),
        Err(e) => Err(e),
    }
}

/// Splits `name@ip:port` into an eight-byte name, a dotted IPv4 address and a port.
pub fn parse_uri(uri: &str) -> (r: Result<(String, String, u16), UriError>)
    ensures
        uri_view(r) == uri_parts(uri@),
{
    let cs = chars_of(uri);
    let at: usize = match find_char(cs.as_slice(), '@') {
        Some(i) => if i > 0 && i != cs.len() - 1 {
            i
        } else {
            return Err(UriError::Format);
        },
        None => return Err(UriError::Format),
    };
    let name = slice_subrange(cs.as_slice(), 0, at);
    let host_port = slice_subrange(cs.as_slice(), at + 1, cs.len());
    assert(name@ =~= uri@.take(at as int));
    assert(host_port@ =~= uri@.skip(at + 1));
    let colon: usize = match rfind_char(host_port, ':') {
        Some(i) => if i > 0 && i != host_port.len() - 1 {
            i
        } else {
            return Err(UriError::Format);
        },
        None => return Err(UriError::Format),
    };
    let ip = slice_subrange(host_port, 0, colon);
    let port = slice_subrange(host_port, colon + 1, host_port.len());
    assert(ip@ =~= host_port@.take(colon as int));
    assert(port@ =~= host_port@.skip(colon + 1));
    let name = string_of(name);
    let name_len: usize = name.as_str().as_bytes().len();
    if name_len != 8 {
        return Err(UriError::NameLen { got: name_len });
    }
    if parse_ipv4_chars(ip).is_none() {
        return Err(UriError::IPv4Only);
    }
    match parse_i64(port) {
        Some(p) => if 1 <= p && p <= 65535 {
            Ok((name, string_of(ip), p as u16))
        } else {
            Err(UriError::Port)
        },
        None => Err(UriError::Port),
    }
}

} // verus!
