//! Numbers, addresses and the addresses of stations, as they are written.

use vstd::prelude::*;
use vstd::string::*;
use vstd::utf8::*;

use crate::codec;
use crate::codec::{decode_bcd, encode_bcd, parse_uri, BcdError, UriError};
use crate::orchestration::{ipv4_str, parse_ipv4};
use crate::text;

verus! {

/// Four octets in decimal with dots between them.
pub open spec fn dotted(ip: Seq<u8>) -> Seq<char> {
    text::dec(ip[0] as nat) + seq!['.'] + text::dec(ip[1] as nat) + seq!['.'] + text::dec(
        ip[2] as nat,
    ) + seq!['.'] + text::dec(ip[3] as nat)
}

/// The value of a hex digit of either case.
pub open spec fn hex_of(c: char) -> Option<int> {
    if '0' <= c <= '9' {
        Some(c as int - 48)
    } else if 'a' <= c <= 'f' {
        Some(c as int - 87)
    } else if 'A' <= c <= 'F' {
        Some(c as int - 55)
    } else {
        None
    }
}

/// A number of eight hex digits.
pub open spec fn is_number(name: Seq<char>) -> bool {
    name.len() == 8 && forall|i: int| 0 <= i < 8 ==> hex_of(#[trigger] name[i]) is Some
}

/// Four bytes that hold the digits of a number, two each, the first one high.
pub open spec fn packs(b: Seq<u8>, name: Seq<char>) -> bool {
    b.len() == 4 && forall|k: int|
        0 <= k < 4 ==> #[trigger] b[k] == hex_of(name[2 * k])->0 * 16 + hex_of(name[2 * k + 1])->0
}

/// The address of a station.
pub open spec fn address(name: Seq<char>, ip: Seq<u8>, port: u16) -> Seq<char> {
    name + seq!['@'] + dotted(ip) + seq![':'] + text::dec(port as nat)
}

/// An address is written with dots, and read back as it was.
pub proof fn law_dotted(ip: [u8; 4], s: &str, written: String, read: Option<[u8; 4]>)
    requires
        call_ensures(ipv4_str, (ip,), written),
        s@ == dotted(ip@),
        call_ensures(parse_ipv4, (s,), read),
    ensures
        written@ == dotted(ip@),
        read matches Some(a) && a@ == ip@,
{
    lemma_dotted(ip@);
}

pub proof fn lemma_dotted(ip: Seq<u8>)
    requires
        ip.len() == 4,
    ensures
        dotted(ip) == codec::ip_text(ip),
        codec::ipv4_value(dotted(ip)) == Some(ip),
        forall|i: int|
            0 <= i < dotted(ip).len() ==> text::is_digit(#[trigger] dotted(ip)[i]) || dotted(ip)[i]
                == '.',
        dotted(ip).len() > 0,
{
    reveal_strlit(".");
    codec::law_ip_text_reads_back(ip);
    assert(dotted(ip) =~= codec::ip_text(ip));
    text::lemma_dec_reads_back(ip[0] as nat);
    text::lemma_dec_reads_back(ip[1] as nat);
    text::lemma_dec_reads_back(ip[2] as nat);
    text::lemma_dec_reads_back(ip[3] as nat);
    let (a, b, c, d) = (
        text::dec(ip[0] as nat),
        text::dec(ip[1] as nat),
        text::dec(ip[2] as nat),
        text::dec(ip[3] as nat),
    );
    let t = dotted(ip);
    assert forall|i: int| 0 <= i < t.len() implies text::is_digit(#[trigger] t[i]) || t[i] == '.' by {
        if i < a.len() {
            assert(t[i] == a[i]);
        } else if i > a.len() && i < a.len() + 1 + b.len() {
            assert(t[i] == b[i - a.len() - 1]);
        } else if i > a.len() + 1 + b.len() && i < a.len() + 2 + b.len() + c.len() {
            assert(t[i] == c[i - a.len() - 2 - b.len()]);
        } else if i > a.len() + 2 + b.len() + c.len() {
            assert(t[i] == d[i - a.len() - 3 - b.len() - c.len()]);
        }
    }
}

proof fn lemma_digit(c: char)
    requires
        hex_of(c) is Some,
    ensures
        c as u32 <= 0x7f,
        c != '@',
        codec::nibble(c as u8) == Some(hex_of(c)->0 as u8),
        0 <= hex_of(c)->0 < 16,
{
}

/// The bytes of a number are its digits, and it is packed two digits to a byte.
pub proof fn lemma_number(name: Seq<char>)
    requires
        is_number(name),
    ensures
        encode_utf8(name).len() == 8,
        codec::bcd_value(encode_utf8(name)) is Ok,
        packs(codec::bcd_value(encode_utf8(name))->Ok_0, name),
{
    assert forall|i: int| 0 <= i < name.len() implies '\0' <= #[trigger] name[i] <= '\u{7f}' by {
        lemma_digit(name[i]);
    }
    is_ascii_chars_encode_utf8(name);
    let s = encode_utf8(name);
    assert forall|j: int| 0 <= j < 8 implies #[trigger] codec::nibble(s[j]) == Some(
        hex_of(name[j])->0 as u8,
    ) by {
        lemma_digit(name[j]);
        assert(s[j] == name[j] as u8);
    }
    assert forall|j: int| 0 <= j < 8 implies 0 <= (#[trigger] hex_of(name[j]))->0 < 16 by {
        lemma_digit(name[j]);
    }
    lemma_none_bad(s, 0);
    let b = codec::bcd_value(s)->Ok_0;
    assert(codec::nibble(s[0]) is Some && codec::nibble(s[1]) is Some);
    assert(codec::nibble(s[2]) is Some && codec::nibble(s[3]) is Some);
    assert(codec::nibble(s[4]) is Some && codec::nibble(s[5]) is Some);
    assert(codec::nibble(s[6]) is Some && codec::nibble(s[7]) is Some);
    assert(b[0] == hex_of(name[0])->0 * 16 + hex_of(name[1])->0);
    assert(b[1] == hex_of(name[2])->0 * 16 + hex_of(name[3])->0);
    assert(b[2] == hex_of(name[4])->0 * 16 + hex_of(name[5])->0);
    assert(b[3] == hex_of(name[6])->0 * 16 + hex_of(name[7])->0);
}

proof fn lemma_none_bad(s: Seq<u8>, i: int)
    requires
        0 <= i <= s.len(),
        forall|j: int| i <= j < s.len() ==> #[trigger] codec::nibble(s[j]) is Some,
    ensures
        codec::first_bad(s, i) is None,
    decreases s.len() - i,
{
    if i < s.len() {
        assert(codec::nibble(s[i]) is Some);
        lemma_none_bad(s, i + 1);
    }
}

/// A number of eight hex digits is packed into four bytes, two digits each with the first one
/// high, and unpacked into the same digits in lower case.
pub proof fn law_number_is_packed(name: &str, r: Result<[u8; 4], BcdError>, b: [u8; 4], t: String)
    requires
        is_number(name@),
        call_ensures(encode_bcd, (name,), r),
        call_ensures(decode_bcd, (b,), t),
    ensures
        r matches Ok(p) && packs(p@, name@),
        t@.len() == 8,
        forall|k: int|
            0 <= k < 4 ==> hex_of(#[trigger] t@[2 * k]) == Some((b@[k] / 16) as int) && hex_of(
                t@[2 * k + 1],
            ) == Some((b@[k] % 16) as int),
        forall|i: int| 0 <= i < 8 ==> !('A' <= #[trigger] t@[i] <= 'F'),
{
    lemma_number(name@);
    assert forall|k: int| 0 <= k < 4 implies hex_of(#[trigger] t@[2 * k]) == Some(
        (b@[k] / 16) as int,
    ) && hex_of(t@[2 * k + 1]) == Some((b@[k] % 16) as int) by {
        assert((2 * k) / 2 == k && (2 * k + 1) / 2 == k && (2 * k) % 2 == 0 && (2 * k + 1) % 2 == 1);
    }
    assert forall|i: int| 0 <= i < 8 implies !('A' <= #[trigger] t@[i] <= 'F') by {
        assert(0 <= i / 2 < 4);
    }
}

/// A text with another length, or with something else than hex digits in it, is not packed.
pub proof fn law_other_texts_are_not_packed(name: &str, r: Result<[u8; 4], BcdError>, k: int)
    requires
        is_ascii_chars(name@),
        call_ensures(encode_bcd, (name,), r),
        name@.len() != 8 || 0 <= k < 8 && hex_of(name@[k]) is None && forall|j: int|
            0 <= j < k ==> hex_of(#[trigger] name@[j]) is Some,
    ensures
        name@.len() != 8 ==> r == Err::<[u8; 4], _>(BcdError::Length { got: name@.len() as usize }),
        name@.len() == 8 ==> r == Err::<[u8; 4], _>(
            BcdError::Format { ch: name@[k], index: k as usize },
        ),
{
    is_ascii_chars_encode_utf8(name@);
    let s = encode_utf8(name@);
    if name@.len() == 8 {
        assert forall|j: int| 0 <= j < k implies #[trigger] codec::nibble(s[j]) is Some by {
            assert(hex_of(name@[j]) is Some);
            lemma_digit(name@[j]);
            assert(s[j] == name@[j] as u8);
        }
        assert(s[k] == name@[k] as u8);
        lemma_not_digit(name@[k]);
        lemma_bad_at(s, 0, k);
    }
}

proof fn lemma_not_digit(c: char)
    requires
        hex_of(c) is None,
        c as u32 <= 0x7f,
    ensures
        codec::nibble(c as u8) is None,
        (c as u8) as char == c,
{
}

proof fn lemma_bad_at(s: Seq<u8>, i: int, k: int)
    requires
        0 <= i <= k < s.len(),
        codec::nibble(s[k]) is None,
        forall|j: int| i <= j < k ==> #[trigger] codec::nibble(s[j]) is Some,
    ensures
        codec::first_bad(s, i) == Some(k),
    decreases k - i,
{
    if i < k {
        assert(codec::nibble(s[i]) is Some);
        lemma_bad_at(s, i + 1, k);
    }
}

/// The address of a station is split into its number, its address and its port.
pub proof fn lemma_address(name: Seq<char>, ip: Seq<u8>, port: u16)
    requires
        is_number(name),
        ip.len() == 4,
        port >= 1,
    ensures
        codec::uri_parts(address(name, ip, port)) == Ok::<_, UriError>((name, dotted(ip), port)),
        text::find(address(name, ip, port), '@') == Some(8int),
{
    let u = address(name, ip, port);
    let d = dotted(ip);
    let p = text::dec(port as nat);
    lemma_dotted(ip);
    lemma_number(name);
    text::lemma_dec_reads_back(port as nat);
    assert forall|j: int| 0 <= j < 8 implies u[j] != '@' by {
        assert(u[j] == name[j]);
        assert(hex_of(name[j]) is Some);
    }
    assert(u[8] == '@');
    text::lemma_find_at(u, '@', 8);
    let hp = u.skip(9);
    assert(hp =~= d + seq![':'] + p);
    assert forall|j: int| d.len() < j < hp.len() implies hp[j] != ':' by {
        assert(hp[j] == p[j - d.len() - 1]);
        assert(text::is_digit(p[j - d.len() - 1]));
    }
    assert(hp[d.len() as int] == ':');
    text::lemma_rfind_at(hp, ':', d.len() as int);
    assert(u.take(8) =~= name);
    assert(hp.take(d.len() as int) =~= d);
    assert(hp.skip(d.len() as int + 1) =~= p);
    assert(p.len() > 0);
}

/// The address of a station is split into its number, its address and its port.
pub proof fn law_address_is_split(
    uri: &str,
    name: Seq<char>,
    ip: Seq<u8>,
    port: u16,
    r: Result<(String, String, u16), UriError>,
)
    requires
        is_number(name),
        ip.len() == 4,
        port >= 1,
        uri@ == address(name, ip, port),
        call_ensures(parse_uri, (uri,), r),
    ensures
        r matches Ok((n, i, p)) && n@ == name && i@ == dotted(ip) && p == port,
{
    lemma_address(name, ip, port);
}

} // verus!
