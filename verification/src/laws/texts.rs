//! Texts: escapes, header fields, settings and addresses that are none.

use vstd::prelude::*;
use vstd::string::*;
use vstd::utf8::*;

use super::forms;
use crate::codec;
use crate::codec::{parse_uri, UriError};
use crate::config::{conv_bool, conv_int, conv_string_array, Config, ConfigError};
use crate::config::ini;
use crate::httpx::header;
use crate::httpx::header::{canonical_mime_header_key, Header};
use crate::httpx::json;
use crate::httpx::json::write_string;
use crate::httpx::status_text;
use crate::info::{build, SelfDesc};
use crate::text;

verus! {

// ---------------------------------------------------------------------------
// Escapes
// ---------------------------------------------------------------------------

/// How a character stands in a JSON string.
pub open spec fn escaped(c: char, html: bool) -> Seq<char> {
    if c == '"' {
        seq!['\\', '"']
    } else if c == '\\' {
        seq!['\\', '\\']
    } else if c == '\n' {
        seq!['\\', 'n']
    } else if c == '\r' {
        seq!['\\', 'r']
    } else if c == '\t' {
        seq!['\\', 't']
    } else if c as int == 8 {
        seq!['\\', 'b']
    } else if c as int == 12 {
        seq!['\\', 'f']
    } else if (c as int) < 16 {
        seq!['\\', 'u', '0', '0', '0', text::hex_char(c as int)]
    } else if (c as int) < 32 {
        seq!['\\', 'u', '0', '0', '1', text::hex_char(c as int - 16)]
    } else if html && c == '<' {
        seq!['\\', 'u', '0', '0', '3', 'c']
    } else if html && c == '>' {
        seq!['\\', 'u', '0', '0', '3', 'e']
    } else if html && c == '&' {
        seq!['\\', 'u', '0', '0', '2', '6']
    } else if c as int == 0x2028 {
        seq!['\\', 'u', '2', '0', '2', '8']
    } else if c as int == 0x2029 {
        seq!['\\', 'u', '2', '0', '2', '9']
    } else {
        seq![c]
    }
}

proof fn lemma_two_digits(n: nat)
    requires
        n < 256,
    ensures
        text::zero_fill(text::hex(n), 4) == seq![
            '0',
            '0',
            text::hex_char(n as int / 16),
            text::hex_char(n as int % 16),
        ],
{
    reveal_with_fuel(text::hex, 3);
    if n < 16 {
        assert(text::hex_char(0) == '0');
    }
    assert(text::zero_fill(text::hex(n), 4) =~= seq![
        '0',
        '0',
        text::hex_char(n as int / 16),
        text::hex_char(n as int % 16),
    ]);
}

#[verifier::rlimit(40)]
proof fn lemma_four_digits()
    ensures
        text::zero_fill(text::hex(0x2028), 4) == seq!['2', '0', '2', '8'],
        text::zero_fill(text::hex(0x2029), 4) == seq!['2', '0', '2', '9'],
{
    reveal_with_fuel(text::hex, 5);
    assert(text::hex(0x2028) =~= seq!['2', '0', '2', '8']);
    assert(text::hex(0x2029) =~= seq!['2', '0', '2', '9']);
}

#[verifier::rlimit(40)]
proof fn lemma_escaped(c: char, html: bool)
    ensures
        json::char_text(c, html) == escaped(c, html),
{
    reveal_strlit("\\\"");
    reveal_strlit("\\\\");
    reveal_strlit("\\n");
    reveal_strlit("\\r");
    reveal_strlit("\\t");
    reveal_strlit("\\b");
    reveal_strlit("\\f");
    reveal_strlit("\\u");
    if (c as int) < 256 {
        lemma_two_digits(c as nat);
    }
    lemma_four_digits();
    assert(json::char_text(c, html) =~= escaped(c, html));
}

/// The empty text is written as two quotes, and each further character of a text before the last
/// quote, as it is or escaped.
pub proof fn law_strings_are_written(
    a: &mut String,
    b: &mut String,
    s: &str,
    t: &str,
    c: char,
    html: bool,
)
    requires
        old(a)@.len() == 0 && old(b)@.len() == 0,
        call_ensures(write_string, (a, s, html), ()),
        call_ensures(write_string, (b, t, html), ()),
        t@ == s@.push(c),
    ensures
        s@.len() == 0 ==> final(a)@ == seq!['"', '"'],
        final(b)@ == final(a)@.drop_last() + escaped(c, html) + seq!['"'],
{
    lemma_escaped(c, html);
    assert(t@.drop_last() =~= s@);
    if s@.len() == 0 {
        assert(json::chars_text(s@, html) =~= Seq::<char>::empty());
        assert(final(a)@ =~= seq!['"', '"']);
    }
    assert(final(b)@ =~= final(a)@.drop_last() + escaped(c, html) + seq!['"']);
}

// ---------------------------------------------------------------------------
// Header fields
// ---------------------------------------------------------------------------

/// The name of a field is written with a capital letter at its start and behind each hyphen, and
/// small letters elsewhere.
pub proof fn law_field_names(key: &str, out: String)
    requires
        call_ensures(canonical_mime_header_key, (key,), out),
        is_ascii_chars(key@),
    ensures
        out@.len() == key@.len(),
        forall|i: int|
            0 <= i < key@.len() ==> text::lower(#[trigger] out@[i]) == text::lower(key@[i]),
        forall|i: int|
            0 <= i < key@.len() ==> if i == 0 || key@[i - 1] == '-' {
                !('a' <= #[trigger] out@[i] <= 'z')
            } else {
                !('A' <= out@[i] <= 'Z')
            },
{
    header::lemma_canonical_ascii(key@);
    assert forall|i: int| 0 <= i < key@.len() implies text::lower(#[trigger] out@[i])
        == text::lower(key@[i]) by {
        lemma_cases(key@[i]);
    }
    assert forall|i: int| 0 <= i < key@.len() implies if i == 0 || key@[i - 1] == '-' {
        !('a' <= #[trigger] out@[i] <= 'z')
    } else {
        !('A' <= out@[i] <= 'Z')
    } by {
        lemma_cases(key@[i]);
    }
}

proof fn lemma_cases(c: char)
    requires
        c as int <= 127,
    ensures
        !('A' <= text::lower(c) <= 'Z'),
        text::lower(text::lower(c)) == text::lower(c),
        'a' <= c <= 'z' ==> 'A' <= ((c as u8) - 32) as char <= 'Z' && text::lower(
            ((c as u8) - 32) as char,
        ) == c,
{
}

/// A field that was set has that value, under any name that counts as the same. Other fields stay
/// as they were.
pub proof fn law_fields(
    h: &mut Header,
    key: &str,
    other: &str,
    value: &str,
    k: String,
    o: String,
    r: Option<&str>,
)
    requires
        call_ensures(Header::set, (h, key, value), ()),
        call_ensures(canonical_mime_header_key, (key,), k),
        call_ensures(canonical_mime_header_key, (other,), o),
        call_ensures(Header::get, (&*final(h), other), r),
    ensures
        k@ == o@ ==> (r matches Some(v) && v@ == value@),
        k@ != o@ ==> (r is Some <==> old(h)@.dom().contains(o@) && old(h)@[o@].len() > 0) && (
        r matches Some(v) ==> v@ == old(h)@[o@][0]),
{
}

/// A value that is added to a field comes behind those it has.
pub proof fn law_added_values(h: &mut Header, key: &str, value: &str, k: String)
    requires
        call_ensures(Header::add, (h, key, value), ()),
        call_ensures(canonical_mime_header_key, (key,), k),
    ensures
        final(h)@.dom().contains(k@),
        final(h)@[k@].last() == value@,
        !old(h)@.dom().contains(k@) ==> final(h)@[k@].len() == 1,
        old(h)@.dom().contains(k@) ==> final(h)@[k@].drop_last() == old(h)@[k@],
        forall|n: Seq<char>|
            n != k@ ==> #[trigger] final(h)@.dom().contains(n) == old(h)@.dom().contains(n)
                && final(h)@[n] == old(h)@[n],
{
    if old(h)@.dom().contains(k@) {
        assert(final(h)@[k@].drop_last() =~= old(h)@[k@]);
    }
}

/// A field that was removed is gone, and no other.
pub proof fn law_removed_fields(h: &mut Header, key: &str, k: String)
    requires
        call_ensures(Header::del, (h, key), ()),
        call_ensures(canonical_mime_header_key, (key,), k),
    ensures
        !final(h)@.dom().contains(k@),
        forall|n: Seq<char>|
            n != k@ ==> #[trigger] final(h)@.dom().contains(n) == old(h)@.dom().contains(n) && (
            old(h)@.dom().contains(n) ==> final(h)@[n] == old(h)@[n]),
{
}

/// What the numbers of answers mean.
pub proof fn law_reasons(code: u16, r: &'static str)
    requires
        call_ensures(status_text, (code,), r),
    ensures
        code == 200 ==> r@ == "OK"@,
        code == 400 ==> r@ == "Bad Request"@,
        code == 404 ==> r@ == "Not Found"@,
        code == 405 ==> r@ == "Method Not Allowed"@,
        code == 413 ==> r@ == "Payload Too Large"@,
        code == 414 ==> r@ == "URI Too Long"@,
        code == 415 ==> r@ == "Unsupported Media Type"@,
        code == 426 ==> r@ == "Upgrade Required"@,
        code == 431 ==> r@ == "Request Header Fields Too Large"@,
        code == 500 ==> r@ == "Internal Server Error"@,
        code == 503 ==> r@ == "Service Unavailable"@,
{
}

// ---------------------------------------------------------------------------
// Settings
// ---------------------------------------------------------------------------

/// A number is read as it is written, where it has 32 bits; nothing is 0, and another number is
/// refused.
pub proof fn law_numbers(value: &str, key: &str, r: Result<i64, String>, n: int)
    requires
        call_ensures(conv_int, (value, key), r),
        value@ == text::dec_int(n) || value@.len() == 0 && n == 0,
    ensures
        -0x8000_0000 <= n < 0x8000_0000 ==> (r matches Ok(x) && x == n),
        !(-0x8000_0000 <= n < 0x8000_0000) ==> r is Err,
{
    super::settings::lemma_number_reads_back(n);
}

/// Flags are `true` and `1`, and `false`, `0` and nothing, in any letter case.
pub proof fn law_flags(value: &str, key: &str, r: Result<bool, String>)
    requires
        call_ensures(conv_bool, (value, key), r),
    ensures
        text::eq_no_case(value@, "true"@) || value@ == "1"@ ==> r == Ok::<bool, String>(true),
        text::eq_no_case(value@, "false"@) || value@ == "0"@ || value@.len() == 0 ==> r == Ok::<
            bool,
            String,
        >(false),
        r == Ok::<bool, String>(true) ==> text::eq_no_case(value@, "true"@) || text::eq_no_case(
            value@,
            "1"@,
        ),
{
    reveal_strlit("true");
    reveal_strlit("false");
    reveal_strlit("1");
    reveal_strlit("0");
    reveal_strlit("");
    let l = text::lower_all(value@);
    assert(text::lower_all("true"@) =~= "true"@);
    assert(text::lower_all("false"@) =~= "false"@);
    assert(text::lower_all("1"@) =~= "1"@);
    assert(text::lower_all("0"@) =~= "0"@);
    assert(l.len() == value@.len());
    if value@.len() == 0 {
        assert(l =~= ""@);
    }
    assert("true"@.len() == 4 && "false"@.len() == 5 && "1"@.len() == 1 && "0"@.len() == 1);
    assert("1"@[0] != "0"@[0]);
}

/// Items with a comma between them are read one by one.
pub proof fn law_lists(value: &str, out: Vec<String>, items: Seq<Seq<char>>)
    requires
        call_ensures(conv_string_array, (value,), out),
        value@ == ini::joined(items),
        forall|i: int| 0 <= i < items.len() ==> ini::list_item(#[trigger] items[i]),
    ensures
        out@.len() == items.len(),
        forall|i: int| 0 <= i < items.len() ==> (#[trigger] out@[i])@ == items[i],
{
    ini::lemma_joined(Seq::empty(), items);
    assert(Seq::<char>::empty() + ini::joined(items) =~= ini::joined(items));
    let v = text::string_views(out@);
    assert(v == items);
    assert forall|i: int| 0 <= i < items.len() implies (#[trigger] out@[i])@ == items[i] by {
        assert(v[i] == out@[i]@);
    }
}

/// The interfaces that are configured are used, and the members of the bridge only without them.
pub proof fn law_interfaces_to_use(
    c: Config,
    members: Result<Vec<String>, String>,
    r: Result<Vec<String>, String>,
)
    requires
        call_ensures(Config::resolve_iface_list, (&c, members), r),
    ensures
        c.iface_list@.len() == 0 ==> r == members,
        c.iface_list@.len() > 0 ==> (r matches Ok(l) && l@.len() == c.iface_list@.len() && forall|
            i: int,
        |
            0 <= i < l@.len() ==> (#[trigger] l@[i])@ == c.iface_list@[i]@),
{
    let v = c@.iface_list;
    assert(v.len() == c.iface_list@.len());
    if v.len() > 0 {
        let l = r->Ok_0;
        let w = text::string_views(l@);
        assert(w.len() == l@.len());
        assert forall|i: int| 0 <= i < l@.len() implies (#[trigger] l@[i])@ == c.iface_list@[i]@ by {
            assert(w[i] == l@[i]@);
            assert(v[i] == c.iface_list@[i]@);
        }
    }
}

/// How errors of the configuration read.
pub proof fn law_config_errors(e: ConfigError, out: String)
    requires
        call_ensures(ConfigError::message, (&e,), out),
    ensures
        e matches ConfigError::NotFound { path } ==> out@ == "config file not found: "@ + path@,
        e matches ConfigError::Read { path, msg } ==> out@ == "read config "@ + path@ + ": "@ + msg@,
        e matches ConfigError::Parse { line, msg } ==> out@ == "config: line "@ + text::dec_int(
            line as int,
        ) + ": "@ + msg@,
        e matches ConfigError::Validation(v) ==> out@ == "config field "@ + v.field@ + " = "@
            + v.value@ + ", want "@ + v.want@,
{
}

/// Of a server that is not configured nothing is said, and of one that is what was found out.
pub proof fn law_self_description(
    c: Config,
    version: &str,
    pid: u32,
    reachable: Option<bool>,
    d: SelfDesc,
)
    requires
        call_ensures(build, (Some(&c), version, pid, reachable), d),
    ensures
        d.pid == pid,
        version@.len() > 0 ==> d.version@ == version@,
        version@.len() == 0 ==> d.version@ == "dev"@,
        d.brand@ == "anjubao"@,
        d.monitor@ == c.sip@,
        d.stations@.len() == c.stations@.len(),
        forall|i: int|
            0 <= i < d.stations@.len() ==> (#[trigger] d.stations@[i]).sip@ == c.stations@[i].sip@,
        d.video.forward == c.video.forward && d.video.forward_supported == c.video.forward,
        d.video.format@ == c.video.format@ && d.video.cache_path@ == c.video.cache_path@,
        c.hass.ipaddr@.len() == 0 ==> d.hass_reachable is None,
        c.hass.ipaddr@.len() > 0 ==> d.hass_reachable == reachable,
{
    let v = d@.stations;
    let w = c@.stations;
    assert(v.len() == d.stations@.len() && w.len() == c.stations@.len());
    assert forall|i: int| 0 <= i < d.stations@.len() implies (#[trigger] d.stations@[i]).sip@
        == c.stations@[i].sip@ by {
        assert(v[i] == d.stations@[i].sip@);
        assert(w[i].sip == c.stations@[i].sip@);
    }
}

// ---------------------------------------------------------------------------
// Addresses that are none
// ---------------------------------------------------------------------------

/// An address is refused for its shape, then for the length of its number, then for its host, and
/// last for a port that is none.
pub proof fn law_refused_addresses(
    uri: &str,
    r: Result<(String, String, u16), UriError>,
    name: Seq<char>,
    host: Seq<char>,
    n: nat,
)
    requires
        call_ensures(parse_uri, (uri,), r),
        is_ascii_chars(name),
        name.len() > 0 && host.len() > 0,
        forall|i: int| 0 <= i < name.len() ==> name[i] != '@',
        uri@ == name + seq!['@'] + host + seq![':'] + text::dec(n),
    ensures
        name.len() != 8 ==> r == Err::<(String, String, u16), _>(
            UriError::NameLen { got: name.len() as usize },
        ),
        name.len() == 8 && (forall|i: int| 0 <= i < host.len() ==> host[i] != '.') ==> r == Err::<
            (String, String, u16),
            _,
        >(UriError::IPv4Only),
        name.len() == 8 && r is Ok ==> 1 <= n <= 65535,
        (exists|ip: Seq<u8>| ip.len() == 4 && host == #[trigger] forms::dotted(ip)) && name.len()
            == 8 ==> (if 1 <= n <= 65535 {
            r matches Ok((a, b, p)) && a@ == name && b@ == host && p == n
        } else {
            r == Err::<(String, String, u16), _>(UriError::Port)
        }),
{
    let u = uri@;
    let d = text::dec(n);
    let m = name.len() as int;
    is_ascii_chars_encode_utf8(name);
    text::lemma_dec_reads_back(n);
    assert forall|j: int| 0 <= j < m implies u[j] != '@' by {
        assert(u[j] == name[j]);
    }
    text::lemma_find_at(u, '@', m);
    assert(u.take(m) =~= name);
    let hp = u.skip(m + 1);
    assert(hp =~= host + seq![':'] + d);
    let h = host.len() as int;
    assert forall|j: int| h < j < hp.len() implies hp[j] != ':' by {
        assert(hp[j] == d[j - h - 1]);
        assert(text::is_digit(d[j - h - 1]));
    }
    text::lemma_rfind_at(hp, ':', h);
    assert(hp.take(h) =~= host);
    assert(hp.skip(h + 1) =~= d);
    assert(text::is_digit(d[0]));
    assert(text::int_value(d) == Some(n as int));
    if forall|i: int| 0 <= i < host.len() ==> host[i] != '.' {
        text::lemma_find_none(host, '.');
        assert(text::split(host, '.').len() == 1);
        assert(codec::ipv4_value(host) is None);
    }
    if exists|ip: Seq<u8>| ip.len() == 4 && host == #[trigger] forms::dotted(ip) {
        let ip = choose|ip: Seq<u8>| ip.len() == 4 && host == #[trigger] forms::dotted(ip);
        forms::lemma_dotted(ip);
    }
    assert(codec::uri_view(r) == codec::uri_parts(u));
}

} // verus!
