//! Settings and where they go.

use vstd::prelude::*;
use vstd::string::*;
use vstd::utf8::*;

use super::forms;
use super::replies;
use crate::config;
use crate::config::ini;
use crate::config::{config_from_text, parse_ini, Config, ConfigError, ConfigView, FieldOutcome,
    IniSink, StationView};
use crate::text;

verus! {

// ---------------------------------------------------------------------------
// Single settings
// ---------------------------------------------------------------------------

/// What the two configurations hold apart from the stations is the same.
pub open spec fn same_but_stations(a: ConfigView, b: ConfigView) -> bool {
    &&& a.sip == b.sip && a.iface == b.iface && a.iface_list == b.iface_list
    &&& a.listen == b.listen && a.hass == b.hass && a.video == b.video
    &&& a.automation == b.automation
    &&& a.missing == b.missing && a.deprecated == b.deprecated && a.warnings == b.warnings
}

/// A setting of a station goes to the one added last, under its name; the stations before it, the
/// other setting and everything else stay as they were.
pub proof fn law_station_settings(
    c: &mut Config,
    section: &str,
    key: &str,
    value: &str,
    r: FieldOutcome,
)
    requires
        section@ == "station"@,
        old(c).stations@.len() > 0,
        call_ensures(<Config as IniSink>::set_subsection, (c, section, key, value), r),
    ensures
        ({
            let n = old(c).stations@.len() as int;
            let was = old(c).stations@[n - 1];
            let is = final(c).stations@[n - 1];
            &&& final(c).stations@.len() == n
            &&& forall|i: int|
                0 <= i < n - 1 ==> (#[trigger] final(c).stations@[i])@ == old(c).stations@[i]@
            &&& key@ == "sip"@ ==> is.sip@ == value@ && is.rtsp_url@ == was.rtsp_url@ && r is Stored
            &&& key@ == "rtsp_url"@ ==> is.sip@ == was.sip@ && is.rtsp_url@ == value@ && r is Stored
            &&& key@ != "sip"@ && key@ != "rtsp_url"@ ==> is@ == was@ && r is Unknown
            &&& same_but_stations(final(c)@, old(c)@)
        }),
{
    reveal_strlit("sip");
    reveal_strlit("rtsp_url");
    assert("sip"@.len() != "rtsp_url"@.len());
    assert(r@ is Stored ==> r is Stored);
    assert(r@ is Unknown ==> r is Unknown);
    let n = old(c).stations@.len() as int;
    let (a, b) = (old(c)@.stations, final(c)@.stations);
    assert(a.len() == n && b.len() == final(c).stations@.len());
    assert(a[n - 1] == old(c).stations@[n - 1]@);
    assert(b.len() == n);
    assert(b[n - 1] == final(c).stations@[n - 1]@);
    assert forall|i: int| 0 <= i < n - 1 implies (#[trigger] final(c).stations@[i])@
        == old(c).stations@[i]@ by {
        assert(a[i] == old(c).stations@[i]@);
        assert(b[i] == final(c).stations@[i]@);
    }
}

/// A station is added behind those that are there, with nothing set.
pub proof fn law_station_is_added(c: &mut Config, section: &str)
    requires
        section@ == "station"@,
        call_ensures(<Config as IniSink>::append_subsection, (c, section), ()),
    ensures
        ({
            let n = old(c).stations@.len() as int;
            &&& final(c).stations@.len() == n + 1
            &&& forall|i: int|
                0 <= i < n ==> (#[trigger] final(c).stations@[i])@ == old(c).stations@[i]@
            &&& final(c).stations@[n].sip@.len() == 0
            &&& final(c).stations@[n].rtsp_url@.len() == 0
            &&& same_but_stations(final(c)@, old(c)@)
        }),
{
    let n = old(c).stations@.len() as int;
    let (a, b) = (old(c)@.stations, final(c)@.stations);
    assert(a.len() == n && b.len() == final(c).stations@.len());
    assert(b.len() == n + 1);
    assert(b[n] == final(c).stations@[n]@);
    assert forall|i: int| 0 <= i < n implies (#[trigger] final(c).stations@[i])@
        == old(c).stations@[i]@ by {
        assert(a[i] == old(c).stations@[i]@);
        assert(b[i] == final(c).stations@[i]@);
    }
}

// ---------------------------------------------------------------------------
// Lines
// ---------------------------------------------------------------------------

/// A line that sets `key`.
pub open spec fn setting(key: Seq<char>, value: Seq<char>) -> Seq<char> {
    key + " = \""@ + value + "\""@
}

/// A line that begins a section.
pub open spec fn heading(name: Seq<char>) -> Seq<char> {
    "["@ + name + "]"@
}

/// A line that begins the section of one station.
pub open spec fn named_heading(name: Seq<char>, sub: Seq<char>) -> Seq<char> {
    "["@ + name + " \""@ + sub + "\"]"@
}

/// What can stand between quotes on a line.
pub open spec fn quotable(t: Seq<char>) -> bool {
    forall|i: int| 0 <= i < t.len() ==> #[trigger] t[i] != '"' && t[i] != '\n'
}

/// Lines that are not longer than can be read.
pub open spec fn fits(line: Seq<char>) -> bool {
    encode_utf8(line).len() < 1048576
}

proof fn lemma_code_skip(s: Seq<char>, quoted: bool, n: nat)
    requires
        n <= s.len(),
        forall|i: int|
            0 <= i < n ==> #[trigger] s[i] != '"' && (quoted || s[i] != ';' && s[i] != '#'),
    ensures
        ini::code_len(s, quoted) == n + ini::code_len(s.skip(n as int), quoted),
    decreases n,
{
    if n == 0 {
        assert(s.skip(0) =~= s);
    } else {
        let t = s.drop_first();
        assert(s[0] != '"');
        assert forall|i: int| 0 <= i < n - 1 implies #[trigger] t[i] != '"' && (quoted || t[i]
            != ';' && t[i] != '#') by {
            assert(t[i] == s[i + 1]);
        }
        lemma_code_skip(t, quoted, (n - 1) as nat);
        assert(t.skip(n - 1) =~= s.skip(n as int));
    }
}

/// A line that is text, a quoted part and more text holds no comment.
proof fn lemma_code_quoted(a: Seq<char>, q: Seq<char>, b: Seq<char>)
    requires
        forall|i: int| 0 <= i < a.len() ==> #[trigger] a[i] != '"' && a[i] != ';' && a[i] != '#',
        forall|i: int| 0 <= i < b.len() ==> #[trigger] b[i] != '"' && b[i] != ';' && b[i] != '#',
        quotable(q),
    ensures
        ini::code_len(a + seq!['"'] + q + seq!['"'] + b, false) == a.len() + q.len() + b.len() + 2,
{
    let s = a + seq!['"'] + q + seq!['"'] + b;
    assert forall|i: int| 0 <= i < a.len() implies #[trigger] s[i] != '"' && s[i] != ';' && s[i]
        != '#' by {
        assert(s[i] == a[i]);
    }
    lemma_code_skip(s, false, a.len());
    let s1 = s.skip(a.len() as int);
    assert(s1[0] == '"');
    let s2 = s1.drop_first();
    assert(s2 =~= q + seq!['"'] + b);
    assert forall|i: int| 0 <= i < q.len() implies #[trigger] s2[i] != '"' by {
        assert(s2[i] == q[i]);
    }
    lemma_code_skip(s2, true, q.len());
    let s3 = s2.skip(q.len() as int);
    assert(s3[0] == '"');
    assert(s3.drop_first() =~= b);
    lemma_code_skip(b, false, b.len());
    assert(b.skip(b.len() as int) =~= Seq::<char>::empty());
}

proof fn lemma_setting_stripped(key: Seq<char>, value: Seq<char>)
    requires
        replies::is_key(key),
        key.len() > 0,
        quotable(value),
    ensures
        ini::stripped(setting(key, value)) == Some(setting(key, value)),
        setting(key, value).len() > 0,
        setting(key, value)[0] != '[',
{
    reveal_strlit(" = \"");
    reveal_strlit("\"");
    let s = setting(key, value);
    let a = key + seq![' ', '=', ' '];
    assert(s =~= a + seq!['"'] + value + seq!['"'] + Seq::<char>::empty());
    assert forall|i: int| 0 <= i < a.len() implies #[trigger] a[i] != '"' && a[i] != ';' && a[i]
        != '#' by {
        if i < key.len() {
            assert(a[i] == key[i]);
        }
    }
    lemma_code_quoted(a, value, Seq::empty());
    assert(s[0] == key[0]);
    assert('a' <= key[0] <= 'z' || key[0] == '_');
    assert(s.last() == '"');
    text::lemma_trim_tight(s);
    assert(s.take(s.len() as int) =~= s);
}

proof fn lemma_setting_parts(key: Seq<char>, value: Seq<char>)
    requires
        replies::is_key(key),
        key.len() > 0,
    ensures
        ini::key_value_parts(setting(key, value)) == Ok::<_, Seq<char>>((key, value)),
{
    reveal_strlit(" = \"");
    reveal_strlit("\"");
    let s = setting(key, value);
    let n = key.len() as int;
    assert forall|j: int| 0 <= j < n + 1 implies s[j] != '=' by {
        if j < n {
            assert(s[j] == key[j]);
        }
    }
    assert(s[n + 1] == '=');
    text::lemma_find_at(s, '=', n + 1);
    let k = s.take(n + 1);
    assert(k =~= key.push(' '));
    assert('a' <= key[0] <= 'z' || key[0] == '_');
    assert('a' <= key[n - 1] <= 'z' || key[n - 1] == '_');
    assert(k.drop_last() =~= key);
    assert(text::trim_start(k) == k);
    assert(text::trim_end(key) == key);
    assert(text::trim(k) == key);
    let v = s.skip(n + 2);
    let q = seq!['"'] + value + seq!['"'];
    assert(v =~= seq![' '] + q);
    assert(v.drop_first() =~= q);
    assert(text::trim_start(q) == q);
    assert(text::trim_start(v) == q);
    assert(text::trim(v) == q);
    assert(q.subrange(1, q.len() - 1) =~= value);
}

proof fn lemma_setting_line<S: IniSink>(
    st: ini::IniState<S::Model>,
    key: Seq<char>,
    value: Seq<char>,
)
    requires
        replies::is_key(key),
        key.len() > 0,
        quotable(value),
        fits(setting(key, value)),
    ensures
        ini::line_step::<S>(st, setting(key, value)) == ini::value_step::<S>(st, key, value),
{
    lemma_setting_stripped(key, value);
    lemma_setting_parts(key, value);
}

proof fn lemma_heading_line<S: IniSink>(st: ini::IniState<S::Model>, name: Seq<char>)
    requires
        replies::is_key(name),
        name.len() > 0,
        fits(heading(name)),
    ensures
        ini::line_step::<S>(st, heading(name)) == (
            ini::header_step::<S>(st, name, Seq::empty()),
            None::<Seq<char>>,
        ),
{
    reveal_strlit("[");
    reveal_strlit("]");
    let s = heading(name);
    assert forall|i: int| 0 <= i < s.len() implies #[trigger] s[i] != '"' && s[i] != ';' && s[i]
        != '#' by {
        if 0 < i < s.len() - 1 {
            assert(s[i] == name[i - 1]);
        }
    }
    lemma_code_skip(s, false, s.len());
    assert(s.skip(s.len() as int) =~= Seq::<char>::empty());
    assert(s[0] == '[' && s.last() == ']');
    text::lemma_trim_tight(s);
    assert(s.take(s.len() as int) =~= s);
    let inner = s.subrange(1, s.len() - 1);
    assert(inner =~= name);
    assert('a' <= name[0] <= 'z' || name[0] == '_');
    let l = name.len() - 1;
    assert('a' <= name[l] <= 'z' || name[l] == '_');
    text::lemma_trim_tight(name);
    assert forall|j: int| 0 <= j < name.len() implies name[j] != ' ' by {}
    text::lemma_find_none(name, ' ');
}

proof fn lemma_named_heading_line<S: IniSink>(
    st: ini::IniState<S::Model>,
    name: Seq<char>,
    sub: Seq<char>,
)
    requires
        replies::is_key(name),
        name.len() > 0,
        quotable(sub),
        fits(named_heading(name, sub)),
    ensures
        ini::line_step::<S>(st, named_heading(name, sub)) == (
            ini::header_step::<S>(st, name, sub),
            None::<Seq<char>>,
        ),
{
    reveal_strlit("[");
    reveal_strlit(" \"");
    reveal_strlit("\"]");
    let s = named_heading(name, sub);
    let a = seq!['['] + name + seq![' '];
    assert(s =~= a + seq!['"'] + sub + seq!['"'] + seq![']']);
    assert forall|i: int| 0 <= i < a.len() implies #[trigger] a[i] != '"' && a[i] != ';' && a[i]
        != '#' by {
        if 0 < i < a.len() - 1 {
            assert(a[i] == name[i - 1]);
        }
    }
    lemma_code_quoted(a, sub, seq![']']);
    assert(s[0] == '[' && s.last() == ']');
    text::lemma_trim_tight(s);
    assert(s.take(s.len() as int) =~= s);
    lemma_named_parts(name, sub);
}

proof fn lemma_named_parts(name: Seq<char>, sub: Seq<char>)
    requires
        replies::is_key(name),
        name.len() > 0,
    ensures
        ini::header_parts(named_heading(name, sub)) == Ok::<_, Seq<char>>((name, sub)),
{
    reveal_strlit("[");
    reveal_strlit(" \"");
    reveal_strlit("\"]");
    let s = named_heading(name, sub);
    let q = seq!['"'] + sub + seq!['"'];
    let inner = s.subrange(1, s.len() - 1);
    let n = name.len() as int;
    assert(inner =~= name + seq![' '] + q);
    assert('a' <= name[0] <= 'z' || name[0] == '_');
    assert('a' <= name[n - 1] <= 'z' || name[n - 1] == '_');
    assert(inner[0] == name[0] && inner.last() == '"');
    text::lemma_trim_tight(inner);
    assert forall|j: int| 0 <= j < n implies inner[j] != ' ' by {
        assert(inner[j] == name[j]);
    }
    text::lemma_find_at(inner, ' ', n);
    assert(inner.take(n) =~= name);
    text::lemma_trim_tight(name);
    assert(inner.skip(n + 1) =~= q);
    text::lemma_trim_tight(q);
    assert(q.subrange(1, q.len() - 1) =~= sub);
}

// ---------------------------------------------------------------------------
// Files
// ---------------------------------------------------------------------------

/// The lines with a line feed behind each.
pub open spec fn file(lines: Seq<Seq<char>>) -> Seq<char>
    decreases lines.len(),
{
    if lines.len() == 0 {
        Seq::empty()
    } else {
        lines[0].push('\n') + file(lines.drop_first())
    }
}

/// Lines that can be read: not too long, and without a line feed in them.
pub open spec fn is_line(line: Seq<char>) -> bool {
    fits(line) && forall|i: int| 0 <= i < line.len() ==> line[i] != '\n'
}

proof fn lemma_file_split(lines: Seq<Seq<char>>)
    requires
        forall|i: int| 0 <= i < lines.len() ==> is_line(#[trigger] lines[i]),
    ensures
        text::split(file(lines), '\n') == lines.push(Seq::empty()),
    decreases lines.len(),
{
    if lines.len() == 0 {
        let e = Seq::<char>::empty();
        assert(text::find(e, '\n') is None);
        assert(text::split(e, '\n') =~= seq![e]);
        assert(lines.push(e) =~= seq![e]);
    } else {
        let rest = lines.drop_first();
        assert forall|i: int| 0 <= i < rest.len() implies is_line(#[trigger] rest[i]) by {
            assert(rest[i] == lines[i + 1]);
        }
        lemma_file_split(rest);
        assert(is_line(lines[0]));
        text::lemma_split_at(lines[0], '\n', file(rest));
        assert(seq![lines[0]] + rest.push(Seq::empty()) =~= lines.push(Seq::empty()));
    }
}

/// The state after lines none of which is refused.
pub open spec fn leads(
    st: ini::IniState<ConfigView>,
    lines: Seq<Seq<char>>,
    next: ini::IniState<ConfigView>,
) -> bool
    decreases lines.len(),
{
    if lines.len() == 0 {
        next == st
    } else {
        let (mid, fault) = ini::line_step::<Config>(st, lines[0]);
        fault is None && leads(mid, lines.drop_first(), next)
    }
}

proof fn lemma_leads_on(
    st: ini::IniState<ConfigView>,
    a: Seq<Seq<char>>,
    mid: ini::IniState<ConfigView>,
    b: Seq<Seq<char>>,
    next: ini::IniState<ConfigView>,
)
    requires
        leads(st, a, mid),
        leads(mid, b, next),
    ensures
        leads(st, a + b, next),
    decreases a.len(),
{
    if a.len() == 0 {
        assert(a + b =~= b);
    } else {
        let n = ini::line_step::<Config>(st, a[0]).0;
        lemma_leads_on(n, a.drop_first(), mid, b, next);
        assert((a + b).drop_first() =~= a.drop_first() + b);
    }
}

proof fn lemma_leads_one(
    st: ini::IniState<ConfigView>,
    a: Seq<Seq<char>>,
    mid: ini::IniState<ConfigView>,
    line: Seq<char>,
    next: ini::IniState<ConfigView>,
)
    requires
        leads(st, a, mid),
        ini::line_step::<Config>(mid, line) == (next, None::<Seq<char>>),
    ensures
        leads(st, a.push(line), next),
{
    let one = seq![line];
    assert(one.drop_first() =~= Seq::<Seq<char>>::empty());
    reveal_with_fuel(leads, 2);
    assert(leads(mid, one, next));
    lemma_leads_on(st, a, mid, one, next);
    assert(a + one =~= a.push(line));
}

proof fn lemma_leads_all(
    st: ini::IniState<ConfigView>,
    lines: Seq<Seq<char>>,
    next: ini::IniState<ConfigView>,
    no: nat,
)
    requires
        leads(st, lines, next),
    ensures
        ini::lines_step::<Config>(st, lines.push(Seq::empty()), no) == (
            next,
            None::<(nat, Seq<char>)>,
        ),
    decreases lines.len(),
{
    let all = lines.push(Seq::empty());
    if lines.len() == 0 {
        let e = Seq::<char>::empty();
        assert(all.drop_first() =~= Seq::<Seq<char>>::empty());
        assert(encode_utf8(e) =~= Seq::<u8>::empty());
        assert(e.take(0) =~= e);
        assert(ini::stripped(e) is None);
        reveal_with_fuel(ini::lines_step, 2);
    } else {
        let mid = ini::line_step::<Config>(st, lines[0]).0;
        lemma_leads_all(mid, lines.drop_first(), next, no + 1);
        assert(all.drop_first() =~= lines.drop_first().push(Seq::empty()));
    }
}

/// The lines for the settings at the top.
pub open spec fn top_lines(v: ConfigView) -> Seq<Seq<char>> {
    seq![
        setting("sip"@, v.sip),
        setting("iface"@, v.iface),
        setting("iface_list"@, ini::joined(v.iface_list)),
    ]
}

pub open spec fn listen_lines(v: ConfigView) -> Seq<Seq<char>> {
    seq![
        heading("listen"@),
        setting("addr"@, v.listen.addr),
        setting("port"@, text::dec_int(v.listen.port)),
    ]
}

pub open spec fn hass_lines(v: ConfigView) -> Seq<Seq<char>> {
    seq![
        heading("hass"@),
        setting("ipaddr"@, v.hass.ipaddr),
        setting("port"@, text::dec_int(v.hass.port)),
        setting("api"@, v.hass.api),
        setting("token"@, v.hass.token),
    ]
}

pub open spec fn video_lines(v: ConfigView) -> Seq<Seq<char>> {
    seq![
        heading("video"@),
        setting("forward"@, replies::flag(v.video.forward)),
        setting("format"@, v.video.format),
        setting("cache_path"@, v.video.cache_path),
    ]
}

pub open spec fn automation_lines(v: ConfigView) -> Seq<Seq<char>> {
    seq![
        heading("automation"@),
        setting("auto_unlock"@, replies::flag(v.automation.auto_unlock)),
        setting("auto_hangup"@, replies::flag(v.automation.auto_hangup)),
    ]
}

/// The lines for the stations, each under its name.
pub open spec fn station_lines(names: Seq<Seq<char>>, stations: Seq<StationView>) -> Seq<Seq<char>>
    decreases stations.len(),
{
    if stations.len() == 0 {
        Seq::empty()
    } else {
        station_lines(names, stations.drop_last()) + seq![
            named_heading("station"@, names[stations.len() - 1]),
            setting("sip"@, stations.last().sip),
            setting("rtsp_url"@, stations.last().rtsp_url),
        ]
    }
}

/// The lines for a configuration.
pub open spec fn config_lines(names: Seq<Seq<char>>, v: ConfigView) -> Seq<Seq<char>> {
    top_lines(v) + listen_lines(v) + hass_lines(v) + video_lines(v) + automation_lines(v)
        + station_lines(names, v.stations)
}

/// Whether a configuration can be written: its texts can be quoted, its numbers are not too large,
/// and each station has a name other than that of the one before it.
pub open spec fn writable(names: Seq<Seq<char>>, v: ConfigView) -> bool {
    &&& quotable(v.sip) && quotable(v.iface) && quotable(ini::joined(v.iface_list))
    &&& quotable(v.listen.addr)
    &&& quotable(v.hass.ipaddr) && quotable(v.hass.api) && quotable(v.hass.token)
    &&& quotable(v.video.format) && quotable(v.video.cache_path)
    &&& forall|i: int| 0 <= i < v.iface_list.len() ==> ini::list_item(#[trigger] v.iface_list[i])
    &&& i32::MIN <= v.listen.port <= i32::MAX
    &&& i32::MIN <= v.hass.port <= i32::MAX
    &&& names.len() == v.stations.len()
    &&& forall|i: int|
        0 <= i < names.len() ==> quotable(#[trigger] names[i]) && names[i].len() > 0
    &&& forall|i: int|
        0 <= i < names.len() - 1 ==> #[trigger] names[i] != names[i + 1]
    &&& forall|i: int|
        0 <= i < v.stations.len() ==> quotable((#[trigger] v.stations[i]).sip) && quotable(
            v.stations[i].rtsp_url,
        )
    &&& forall|i: int|
        0 <= i < config_lines(names, v).len() ==> fits(#[trigger] config_lines(names, v)[i])
}

/// What was read is what was written.
pub open spec fn holds(m: ConfigView, v: ConfigView) -> bool {
    &&& m.sip == v.sip && m.iface == v.iface && m.iface_list == v.iface_list
    &&& m.listen.addr == v.listen.addr && m.listen.port == v.listen.port
    &&& m.hass.ipaddr == v.hass.ipaddr && m.hass.port == v.hass.port && m.hass.api == v.hass.api
    &&& m.hass.token == v.hass.token
    &&& m.video.forward == v.video.forward && m.video.format == v.video.format
    &&& m.video.cache_path == v.video.cache_path
    &&& m.automation.auto_unlock == v.automation.auto_unlock
    &&& m.automation.auto_hangup == v.automation.auto_hangup
    &&& m.stations.len() == v.stations.len()
    &&& forall|i: int|
        0 <= i < v.stations.len() ==> (#[trigger] m.stations[i]).sip == v.stations[i].sip
            && m.stations[i].rtsp_url == v.stations[i].rtsp_url
}

pub proof fn lemma_number_reads_back(n: int)
    ensures
        text::int_value(text::dec_int(n)) == Some(n),
        text::dec_int(n).len() > 0,
        quotable(text::dec_int(n)),
{
    let t = text::dec_int(n);
    let m = if n < 0 {
        (-n) as nat
    } else {
        n as nat
    };
    text::lemma_dec_reads_back(m);
    let d = text::dec(m);
    assert forall|i: int| 0 <= i < t.len() implies #[trigger] t[i] != '"' && t[i] != '\n' by {
        if n < 0 {
            if i > 0 {
                assert(t[i] == d[i - 1]);
                assert(text::is_digit(d[i - 1]));
            }
        } else {
            assert(text::is_digit(d[i]));
        }
    }
    assert(text::is_digit(d[0]));
    if n < 0 {
        assert(t.drop_first() =~= d);
    }
}

proof fn lemma_flag_reads_back(b: bool)
    ensures
        ini::bool_setting(replies::flag(b)) == Some(b),
        quotable(replies::flag(b)),
{
    reveal_strlit("true");
    reveal_strlit("false");
    reveal_strlit("1");
    reveal_strlit("0");
    reveal_strlit("");
    assert(text::lower_all("true"@) =~= "true"@);
    assert(text::lower_all("false"@) =~= "false"@);
    assert("true"@[0] != "false"@[0]);
    assert("false"@.len() == 5 && "true"@.len() == 4 && "1"@.len() == 1);
}

proof fn lemma_names()
    ensures
        replies::is_key("sip"@) && "sip"@.len() == 3,
        replies::is_key("iface"@) && "iface"@.len() == 5,
        replies::is_key("iface_list"@) && "iface_list"@.len() == 10,
        replies::is_key("listen"@) && "listen"@.len() == 6,
        replies::is_key("addr"@) && "addr"@.len() == 4,
        replies::is_key("port"@) && "port"@.len() == 4,
        replies::is_key("hass"@) && "hass"@.len() == 4,
        replies::is_key("ipaddr"@) && "ipaddr"@.len() == 6,
        replies::is_key("api"@) && "api"@.len() == 3,
        replies::is_key("token"@) && "token"@.len() == 5,
        "addr"@ != "port"@,
{
    reveal_strlit("sip");
    reveal_strlit("iface");
    reveal_strlit("iface_list");
    reveal_strlit("listen");
    reveal_strlit("addr");
    reveal_strlit("port");
    reveal_strlit("hass");
    reveal_strlit("ipaddr");
    reveal_strlit("api");
    reveal_strlit("token");
    assert("addr"@[0] != "port"@[0]);
}

proof fn lemma_more_names()
    ensures
        replies::is_key("video"@) && "video"@.len() == 5,
        replies::is_key("forward"@) && "forward"@.len() == 7,
        replies::is_key("format"@) && "format"@.len() == 6,
        replies::is_key("cache_path"@) && "cache_path"@.len() == 10,
        replies::is_key("automation"@) && "automation"@.len() == 10,
        replies::is_key("auto_unlock"@) && "auto_unlock"@.len() == 11,
        replies::is_key("auto_hangup"@) && "auto_hangup"@.len() == 11,
        replies::is_key("station"@) && "station"@.len() == 7,
        replies::is_key("sip"@) && "sip"@.len() == 3,
        replies::is_key("rtsp_url"@) && "rtsp_url"@.len() == 8,
        replies::is_key("listen"@) && "listen"@.len() == 6,
        replies::is_key("hass"@) && "hass"@.len() == 4,
        "auto_unlock"@ != "auto_hangup"@,
        "listen"@ != "format"@,
{
    reveal_strlit("video");
    reveal_strlit("forward");
    reveal_strlit("format");
    reveal_strlit("cache_path");
    reveal_strlit("automation");
    reveal_strlit("auto_unlock");
    reveal_strlit("auto_hangup");
    reveal_strlit("station");
    reveal_strlit("sip");
    reveal_strlit("rtsp_url");
    reveal_strlit("listen");
    reveal_strlit("hass");
    assert("auto_unlock"@[5] != "auto_hangup"@[5]);
    assert("listen"@[0] != "format"@[0]);
}

/// The state behind the header of a section.
spec fn inside(st: ini::IniState<ConfigView>, section: Seq<char>) -> ini::IniState<ConfigView> {
    ini::IniState { section, subname: Seq::empty(), ..st }
}

spec fn holding(st: ini::IniState<ConfigView>, model: ConfigView) -> ini::IniState<ConfigView> {
    ini::IniState { model, ..st }
}

#[verifier::rlimit(40)]
proof fn lemma_top(st: ini::IniState<ConfigView>, v: ConfigView)
    requires
        st.section.len() == 0,
        quotable(v.sip) && quotable(v.iface) && quotable(ini::joined(v.iface_list)),
        forall|i: int| 0 <= i < v.iface_list.len() ==> ini::list_item(#[trigger] v.iface_list[i]),
        fits(top_lines(v)[0]) && fits(top_lines(v)[1]) && fits(top_lines(v)[2]),
    ensures
        leads(
            st,
            top_lines(v),
            holding(
                st,
                ConfigView { sip: v.sip, iface: v.iface, iface_list: v.iface_list, ..st.model },
            ),
        ),
{
    lemma_names();
    let l = top_lines(v);
    let m0 = st.model;
    let m1 = ConfigView { sip: v.sip, ..m0 };
    let m2 = ConfigView { iface: v.iface, ..m1 };
    let m3 = ConfigView { iface_list: v.iface_list, ..m2 };
    ini::lemma_joined(Seq::empty(), v.iface_list);
    assert(Seq::<char>::empty() + ini::joined(v.iface_list) =~= ini::joined(v.iface_list));
    lemma_setting_line::<Config>(st, "sip"@, v.sip);
    lemma_setting_line::<Config>(holding(st, m1), "iface"@, v.iface);
    lemma_setting_line::<Config>(holding(st, m2), "iface_list"@, ini::joined(v.iface_list));
    let none = Seq::<Seq<char>>::empty();
    lemma_leads_one(st, none, st, l[0], holding(st, m1));
    lemma_leads_one(st, none.push(l[0]), holding(st, m1), l[1], holding(st, m2));
    lemma_leads_one(st, none.push(l[0]).push(l[1]), holding(st, m2), l[2], holding(st, m3));
    assert(none.push(l[0]).push(l[1]).push(l[2]) =~= l);
}

#[verifier::rlimit(40)]
proof fn lemma_listen(st: ini::IniState<ConfigView>, v: ConfigView)
    requires
        quotable(v.listen.addr),
        i32::MIN <= v.listen.port <= i32::MAX,
        fits(listen_lines(v)[0]) && fits(listen_lines(v)[1]) && fits(listen_lines(v)[2]),
    ensures
        leads(
            st,
            listen_lines(v),
            holding(inside(st, "listen"@), ConfigView { listen: v.listen, ..st.model }),
        ),
{
    lemma_names();
    lemma_number_reads_back(v.listen.port);
    let l = listen_lines(v);
    let s0 = inside(st, "listen"@);
    let m0 = st.model;
    let m1 = ConfigView {
        listen: config::ListenView { addr: v.listen.addr, port: m0.listen.port },
        ..m0
    };
    let m2 = ConfigView { listen: v.listen, ..m0 };
    lemma_heading_line::<Config>(st, "listen"@);
    lemma_setting_line::<Config>(s0, "addr"@, v.listen.addr);
    lemma_setting_line::<Config>(holding(s0, m1), "port"@, text::dec_int(v.listen.port));
    let none = Seq::<Seq<char>>::empty();
    lemma_leads_one(st, none, st, l[0], s0);
    lemma_leads_one(st, none.push(l[0]), s0, l[1], holding(s0, m1));
    lemma_leads_one(st, none.push(l[0]).push(l[1]), holding(s0, m1), l[2], holding(s0, m2));
    assert(none.push(l[0]).push(l[1]).push(l[2]) =~= l);
}

#[verifier::rlimit(40)]
proof fn lemma_hass(st: ini::IniState<ConfigView>, v: ConfigView)
    requires
        quotable(v.hass.ipaddr) && quotable(v.hass.api) && quotable(v.hass.token),
        i32::MIN <= v.hass.port <= i32::MAX,
        forall|i: int| 0 <= i < 5 ==> fits(#[trigger] hass_lines(v)[i]),
    ensures
        leads(
            st,
            hass_lines(v),
            holding(inside(st, "hass"@), ConfigView { hass: v.hass, ..st.model }),
        ),
{
    lemma_names();
    lemma_number_reads_back(v.hass.port);
    let l = hass_lines(v);
    assert(fits(l[0]) && fits(l[1]) && fits(l[2]) && fits(l[3]) && fits(l[4]));
    let s0 = inside(st, "hass"@);
    let m0 = st.model;
    let h1 = config::HassView { ipaddr: v.hass.ipaddr, ..m0.hass };
    let h2 = config::HassView { port: v.hass.port, ..h1 };
    let h3 = config::HassView { api: v.hass.api, ..h2 };
    let m1 = ConfigView { hass: h1, ..m0 };
    let m2 = ConfigView { hass: h2, ..m0 };
    let m3 = ConfigView { hass: h3, ..m0 };
    let m4 = ConfigView { hass: v.hass, ..m0 };
    lemma_heading_line::<Config>(st, "hass"@);
    lemma_setting_line::<Config>(s0, "ipaddr"@, v.hass.ipaddr);
    lemma_setting_line::<Config>(holding(s0, m1), "port"@, text::dec_int(v.hass.port));
    lemma_setting_line::<Config>(holding(s0, m2), "api"@, v.hass.api);
    lemma_setting_line::<Config>(holding(s0, m3), "token"@, v.hass.token);
    let none = Seq::<Seq<char>>::empty();
    let l1 = none.push(l[0]);
    let l2 = l1.push(l[1]);
    let l3 = l2.push(l[2]);
    let l4 = l3.push(l[3]);
    lemma_leads_one(st, none, st, l[0], s0);
    lemma_leads_one(st, l1, s0, l[1], holding(s0, m1));
    lemma_leads_one(st, l2, holding(s0, m1), l[2], holding(s0, m2));
    lemma_leads_one(st, l3, holding(s0, m2), l[3], holding(s0, m3));
    lemma_leads_one(st, l4, holding(s0, m3), l[4], holding(s0, m4));
    assert(l4.push(l[4]) =~= l);
}

#[verifier::rlimit(40)]
proof fn lemma_video(st: ini::IniState<ConfigView>, v: ConfigView)
    requires
        quotable(v.video.format) && quotable(v.video.cache_path),
        forall|i: int| 0 <= i < 4 ==> fits(#[trigger] video_lines(v)[i]),
    ensures
        leads(
            st,
            video_lines(v),
            holding(inside(st, "video"@), ConfigView { video: v.video, ..st.model }),
        ),
{
    lemma_more_names();
    lemma_flag_reads_back(v.video.forward);
    let l = video_lines(v);
    assert(fits(l[0]) && fits(l[1]) && fits(l[2]) && fits(l[3]));
    let s0 = inside(st, "video"@);
    let m0 = st.model;
    let h1 = config::VideoView { forward: v.video.forward, ..m0.video };
    let h2 = config::VideoView { format: v.video.format, ..h1 };
    let m1 = ConfigView { video: h1, ..m0 };
    let m2 = ConfigView { video: h2, ..m0 };
    let m3 = ConfigView { video: v.video, ..m0 };
    lemma_heading_line::<Config>(st, "video"@);
    lemma_setting_line::<Config>(s0, "forward"@, replies::flag(v.video.forward));
    lemma_setting_line::<Config>(holding(s0, m1), "format"@, v.video.format);
    lemma_setting_line::<Config>(holding(s0, m2), "cache_path"@, v.video.cache_path);
    let none = Seq::<Seq<char>>::empty();
    let l1 = none.push(l[0]);
    let l2 = l1.push(l[1]);
    let l3 = l2.push(l[2]);
    lemma_leads_one(st, none, st, l[0], s0);
    lemma_leads_one(st, l1, s0, l[1], holding(s0, m1));
    lemma_leads_one(st, l2, holding(s0, m1), l[2], holding(s0, m2));
    lemma_leads_one(st, l3, holding(s0, m2), l[3], holding(s0, m3));
    assert(l3.push(l[3]) =~= l);
}

#[verifier::rlimit(40)]
proof fn lemma_automation(st: ini::IniState<ConfigView>, v: ConfigView)
    requires
        fits(automation_lines(v)[0]) && fits(automation_lines(v)[1]) && fits(
            automation_lines(v)[2],
        ),
    ensures
        leads(
            st,
            automation_lines(v),
            holding(inside(st, "automation"@), ConfigView { automation: v.automation, ..st.model }),
        ),
{
    lemma_more_names();
    lemma_flag_reads_back(v.automation.auto_unlock);
    lemma_flag_reads_back(v.automation.auto_hangup);
    let l = automation_lines(v);
    let s0 = inside(st, "automation"@);
    let m0 = st.model;
    let m1 = ConfigView {
        automation: config::Automation {
            auto_unlock: v.automation.auto_unlock,
            auto_hangup: m0.automation.auto_hangup,
        },
        ..m0
    };
    let m2 = ConfigView { automation: v.automation, ..m0 };
    lemma_heading_line::<Config>(st, "automation"@);
    lemma_setting_line::<Config>(s0, "auto_unlock"@, replies::flag(v.automation.auto_unlock));
    lemma_setting_line::<Config>(
        holding(s0, m1),
        "auto_hangup"@,
        replies::flag(v.automation.auto_hangup),
    );
    let none = Seq::<Seq<char>>::empty();
    lemma_leads_one(st, none, st, l[0], s0);
    lemma_leads_one(st, none.push(l[0]), s0, l[1], holding(s0, m1));
    lemma_leads_one(st, none.push(l[0]).push(l[1]), holding(s0, m1), l[2], holding(s0, m2));
    assert(none.push(l[0]).push(l[1]).push(l[2]) =~= l);
}

/// One more station.
#[verifier::rlimit(40)]
proof fn lemma_station(
    st: ini::IniState<ConfigView>,
    name: Seq<char>,
    s: StationView,
    next: ini::IniState<ConfigView>,
)
    requires
        quotable(name) && name.len() > 0,
        quotable(s.sip) && quotable(s.rtsp_url),
        fits(named_heading("station"@, name)),
        fits(setting("sip"@, s.sip)),
        fits(setting("rtsp_url"@, s.rtsp_url)),
        st.filling.dom().contains("station"@) ==> st.filling["station"@] != name,
        next == (ini::IniState {
            model: ConfigView { stations: st.model.stations.push(s), ..st.model },
            section: "station"@,
            subname: name,
            filling: st.filling.insert("station"@, name),
            warnings: st.warnings,
        }),
    ensures
        leads(
            st,
            seq![
                named_heading("station"@, name),
                setting("sip"@, s.sip),
                setting("rtsp_url"@, s.rtsp_url),
            ],
            next,
        ),
{
    lemma_more_names();
    let l = seq![
        named_heading("station"@, name),
        setting("sip"@, s.sip),
        setting("rtsp_url"@, s.rtsp_url),
    ];
    let m0 = st.model;
    let n = m0.stations.len() as int;
    let e = config::empty_station();
    let s1 = StationView { sip: s.sip, rtsp_url: e.rtsp_url };
    let a0 = ini::IniState { section: "station"@, subname: name, ..st };
    let a1 = ini::IniState {
        model: ConfigView { stations: m0.stations.push(s1), ..m0 },
        filling: st.filling.insert("station"@, name),
        ..a0
    };
    lemma_named_heading_line::<Config>(st, "station"@, name);
    lemma_setting_line::<Config>(a0, "sip"@, s.sip);
    lemma_setting_line::<Config>(a1, "rtsp_url"@, s.rtsp_url);
    assert(m0.stations.push(e).update(n, s1) =~= m0.stations.push(s1));
    assert(m0.stations.push(s1).update(n, s) =~= m0.stations.push(s));
    let none = Seq::<Seq<char>>::empty();
    lemma_leads_one(st, none, st, l[0], a0);
    lemma_leads_one(st, none.push(l[0]), a0, l[1], a1);
    lemma_leads_one(st, none.push(l[0]).push(l[1]), a1, l[2], next);
    assert(none.push(l[0]).push(l[1]).push(l[2]) =~= l);
}

/// The state behind the stations.
spec fn behind_stations(
    st: ini::IniState<ConfigView>,
    names: Seq<Seq<char>>,
    stations: Seq<StationView>,
) -> ini::IniState<ConfigView> {
    if stations.len() == 0 {
        st
    } else {
        ini::IniState {
            model: ConfigView { stations: st.model.stations + stations, ..st.model },
            section: "station"@,
            subname: names[stations.len() - 1],
            filling: st.filling.insert("station"@, names[stations.len() - 1]),
            warnings: st.warnings,
        }
    }
}

proof fn lemma_stations(
    st: ini::IniState<ConfigView>,
    names: Seq<Seq<char>>,
    stations: Seq<StationView>,
)
    requires
        !st.filling.dom().contains("station"@),
        names.len() >= stations.len(),
        forall|i: int|
            0 <= i < names.len() ==> quotable(#[trigger] names[i]) && names[i].len() > 0,
        forall|i: int| 0 <= i < names.len() - 1 ==> #[trigger] names[i] != names[i + 1],
        forall|i: int|
            0 <= i < stations.len() ==> quotable((#[trigger] stations[i]).sip) && quotable(
                stations[i].rtsp_url,
            ),
        forall|i: int|
            0 <= i < station_lines(names, stations).len() ==> fits(
                #[trigger] station_lines(names, stations)[i],
            ),
    ensures
        leads(st, station_lines(names, stations), behind_stations(st, names, stations)),
    decreases stations.len(),
{
    if stations.len() > 0 {
        let k = stations.len() - 1;
        let front = stations.drop_last();
        let fl = station_lines(names, front);
        let all = station_lines(names, stations);
        let s = stations[k];
        assert forall|i: int| 0 <= i < front.len() implies quotable((#[trigger] front[i]).sip)
            && quotable(front[i].rtsp_url) by {
            assert(front[i] == stations[i]);
        }
        assert forall|i: int| 0 <= i < fl.len() implies fits(#[trigger] fl[i]) by {
            assert(all[i] == fl[i]);
        }
        lemma_stations(st, names, front);
        let mid = behind_stations(st, names, front);
        let next = behind_stations(st, names, stations);
        assert(all[fl.len() as int] == named_heading("station"@, names[k]));
        assert(all[fl.len() as int + 1] == setting("sip"@, s.sip));
        assert(all[fl.len() as int + 2] == setting("rtsp_url"@, s.rtsp_url));
        if k > 0 {
            assert(names[k - 1] != names[k - 1 + 1]);
        }
        assert(mid.model.stations.push(s) =~= next.model.stations);
        assert(mid.filling.insert("station"@, names[k]) =~= next.filling);
        lemma_station(mid, names[k], s, next);
        lemma_leads_on(
            st,
            fl,
            mid,
            seq![
                named_heading("station"@, names[k]),
                setting("sip"@, s.sip),
                setting("rtsp_url"@, s.rtsp_url),
            ],
            next,
        );
    }
}

proof fn lemma_setting_is_line(key: Seq<char>, value: Seq<char>)
    requires
        replies::is_key(key),
        quotable(value),
    ensures
        fits(setting(key, value)) ==> is_line(setting(key, value)),
{
    reveal_strlit(" = \"");
    reveal_strlit("\"");
    let s = setting(key, value);
    assert forall|i: int| 0 <= i < s.len() implies s[i] != '\n' by {
        if i < key.len() {
            assert(s[i] == key[i]);
        } else if key.len() + 4 <= i < s.len() - 1 {
            assert(s[i] == value[i - key.len() - 4]);
        }
    }
}

proof fn lemma_heading_is_line(name: Seq<char>)
    requires
        replies::is_key(name),
    ensures
        fits(heading(name)) ==> is_line(heading(name)),
{
    reveal_strlit("[");
    reveal_strlit("]");
    let s = heading(name);
    assert forall|i: int| 0 <= i < s.len() implies s[i] != '\n' by {
        if 0 < i < s.len() - 1 {
            assert(s[i] == name[i - 1]);
        }
    }
}

proof fn lemma_named_heading_is_line(name: Seq<char>, sub: Seq<char>)
    requires
        replies::is_key(name),
        quotable(sub),
    ensures
        fits(named_heading(name, sub)) ==> is_line(named_heading(name, sub)),
{
    reveal_strlit("[");
    reveal_strlit(" \"");
    reveal_strlit("\"]");
    let s = named_heading(name, sub);
    let n = name.len();
    assert forall|i: int| 0 <= i < s.len() implies s[i] != '\n' by {
        if 0 < i <= n {
            assert(s[i] == name[i - 1]);
        } else if n + 3 <= i < s.len() - 2 {
            assert(s[i] == sub[i - n - 3]);
        }
    }
}

/// Lines that can be read where they are not too long.
spec fn are_lines(lines: Seq<Seq<char>>) -> bool {
    forall|i: int| 0 <= i < lines.len() && fits(#[trigger] lines[i]) ==> is_line(lines[i])
}

proof fn lemma_are_lines(a: Seq<Seq<char>>, b: Seq<Seq<char>>)
    requires
        are_lines(a),
        are_lines(b),
    ensures
        are_lines(a + b),
{
    let all = a + b;
    assert forall|i: int| 0 <= i < all.len() && fits(#[trigger] all[i]) implies is_line(all[i]) by {
        if i < a.len() {
            assert(all[i] == a[i]);
        } else {
            assert(all[i] == b[i - a.len()]);
        }
    }
}

proof fn lemma_station_lines(names: Seq<Seq<char>>, stations: Seq<StationView>)
    requires
        names.len() >= stations.len(),
        forall|i: int| 0 <= i < names.len() ==> quotable(#[trigger] names[i]),
        forall|i: int|
            0 <= i < stations.len() ==> quotable((#[trigger] stations[i]).sip) && quotable(
                stations[i].rtsp_url,
            ),
    ensures
        are_lines(station_lines(names, stations)),
    decreases stations.len(),
{
    if stations.len() > 0 {
        let k = stations.len() - 1;
        let front = stations.drop_last();
        let s = stations[k];
        assert forall|i: int| 0 <= i < front.len() implies quotable((#[trigger] front[i]).sip)
            && quotable(front[i].rtsp_url) by {
            assert(front[i] == stations[i]);
        }
        lemma_station_lines(names, front);
        lemma_more_names();
        assert(quotable(names[k]));
        lemma_named_heading_is_line("station"@, names[k]);
        lemma_setting_is_line("sip"@, s.sip);
        lemma_setting_is_line("rtsp_url"@, s.rtsp_url);
        lemma_are_lines(
            station_lines(names, front),
            seq![
                named_heading("station"@, names[k]),
                setting("sip"@, s.sip),
                setting("rtsp_url"@, s.rtsp_url),
            ],
        );
    }
}

#[verifier::rlimit(40)]
proof fn lemma_config_lines(names: Seq<Seq<char>>, v: ConfigView)
    requires
        writable(names, v),
    ensures
        are_lines(config_lines(names, v)),
{
    lemma_names();
    lemma_more_names();
    lemma_number_reads_back(v.listen.port);
    lemma_number_reads_back(v.hass.port);
    lemma_flag_reads_back(v.video.forward);
    lemma_flag_reads_back(v.automation.auto_unlock);
    lemma_flag_reads_back(v.automation.auto_hangup);
    lemma_setting_is_line("sip"@, v.sip);
    lemma_setting_is_line("iface"@, v.iface);
    lemma_setting_is_line("iface_list"@, ini::joined(v.iface_list));
    lemma_heading_is_line("listen"@);
    lemma_setting_is_line("addr"@, v.listen.addr);
    lemma_setting_is_line("port"@, text::dec_int(v.listen.port));
    lemma_heading_is_line("hass"@);
    lemma_setting_is_line("ipaddr"@, v.hass.ipaddr);
    lemma_setting_is_line("port"@, text::dec_int(v.hass.port));
    lemma_setting_is_line("api"@, v.hass.api);
    lemma_setting_is_line("token"@, v.hass.token);
    lemma_heading_is_line("video"@);
    lemma_setting_is_line("forward"@, replies::flag(v.video.forward));
    lemma_setting_is_line("format"@, v.video.format);
    lemma_setting_is_line("cache_path"@, v.video.cache_path);
    lemma_heading_is_line("automation"@);
    lemma_setting_is_line("auto_unlock"@, replies::flag(v.automation.auto_unlock));
    lemma_setting_is_line("auto_hangup"@, replies::flag(v.automation.auto_hangup));
    lemma_station_lines(names, v.stations);
    assert(are_lines(top_lines(v)));
    assert(are_lines(listen_lines(v)));
    assert(are_lines(hass_lines(v)));
    assert(are_lines(video_lines(v)));
    assert(are_lines(automation_lines(v)));
    let l1 = top_lines(v) + listen_lines(v);
    let l2 = l1 + hass_lines(v);
    let l3 = l2 + video_lines(v);
    let l4 = l3 + automation_lines(v);
    lemma_are_lines(top_lines(v), listen_lines(v));
    lemma_are_lines(l1, hass_lines(v));
    lemma_are_lines(l2, video_lines(v));
    lemma_are_lines(l3, automation_lines(v));
    lemma_are_lines(l4, station_lines(names, v.stations));
}

proof fn lemma_part_fits(a: Seq<Seq<char>>, b: Seq<Seq<char>>)
    requires
        forall|i: int| 0 <= i < (a + b).len() ==> fits(#[trigger] (a + b)[i]),
    ensures
        forall|i: int| 0 <= i < a.len() ==> fits(#[trigger] a[i]),
        forall|i: int| 0 <= i < b.len() ==> fits(#[trigger] b[i]),
{
    assert forall|i: int| 0 <= i < a.len() implies fits(#[trigger] a[i]) by {
        assert((a + b)[i] == a[i]);
    }
    assert forall|i: int| 0 <= i < b.len() implies fits(#[trigger] b[i]) by {
        assert((a + b)[i + a.len()] == b[i]);
    }
}

#[verifier::rlimit(40)]
proof fn lemma_all_read(names: Seq<Seq<char>>, v: ConfigView)
    requires
        writable(names, v),
    ensures
        ({
            let (st, fault) = ini::file_step::<Config>(
                config::empty_config(),
                file(config_lines(names, v)),
            );
            fault is None && holds(st.model, v) && st.warnings.len() == 0 && st.model.missing.len()
                == 0 && st.model.deprecated.len() == 0
        }),
{
    let lines = config_lines(names, v);
    let st = ini::IniState {
        model: config::empty_config(),
        section: Seq::<char>::empty(),
        subname: Seq::<char>::empty(),
        filling: Map::<Seq<char>, Seq<char>>::empty(),
        warnings: Seq::<Seq<char>>::empty(),
    };
    let (p0, p1, p2, p3, p4) = (
        top_lines(v),
        listen_lines(v),
        hass_lines(v),
        video_lines(v),
        automation_lines(v),
    );
    let p5 = station_lines(names, v.stations);
    let l1 = p0 + p1;
    let l2 = l1 + p2;
    let l3 = l2 + p3;
    let l4 = l3 + p4;
    lemma_part_fits(l4, p5);
    lemma_part_fits(l3, p4);
    lemma_part_fits(l2, p3);
    lemma_part_fits(l1, p2);
    lemma_part_fits(p0, p1);
    lemma_config_lines(names, v);
    assert forall|i: int| 0 <= i < lines.len() implies is_line(#[trigger] lines[i]) by {
        assert(fits(lines[i]));
    }
    lemma_file_split(lines);
    let m0 = st.model;
    let s0 = holding(
        st,
        ConfigView { sip: v.sip, iface: v.iface, iface_list: v.iface_list, ..m0 },
    );
    lemma_top(st, v);
    let s1 = holding(inside(s0, "listen"@), ConfigView { listen: v.listen, ..s0.model });
    lemma_listen(s0, v);
    lemma_leads_on(st, p0, s0, p1, s1);
    let s2 = holding(inside(s1, "hass"@), ConfigView { hass: v.hass, ..s1.model });
    lemma_hass(s1, v);
    lemma_leads_on(st, l1, s1, p2, s2);
    let s3 = holding(inside(s2, "video"@), ConfigView { video: v.video, ..s2.model });
    lemma_video(s2, v);
    lemma_leads_on(st, l2, s2, p3, s3);
    let s4 = holding(
        inside(s3, "automation"@),
        ConfigView { automation: v.automation, ..s3.model },
    );
    lemma_automation(s3, v);
    lemma_leads_on(st, l3, s3, p4, s4);
    let s5 = behind_stations(s4, names, v.stations);
    lemma_stations(s4, names, v.stations);
    lemma_leads_on(st, l4, s4, p5, s5);
    lemma_leads_all(st, lines, s5, 1);
    assert(s4.model.stations + v.stations =~= v.stations);
}

/// A file that sets everything is read without a warning, and each setting is found under its
/// name: those of the sections, and those of the stations in their order.
pub proof fn law_written_settings_are_read(
    t: &str,
    c: &mut Config,
    r: Result<Vec<String>, ConfigError>,
    names: Seq<Seq<char>>,
    v: ConfigView,
)
    requires
        writable(names, v),
        t@ == file(config_lines(names, v)),
        old(c)@ == config::empty_config(),
        call_ensures(parse_ini::<Config>, (t, c), r),
    ensures
        r matches Ok(w) && w@.len() == 0,
        holds(final(c)@, v),
{
    lemma_all_read(names, v);
    if r is Ok {
        assert(text::string_views((r->Ok_0)@).len() == (r->Ok_0)@.len());
    }
}

/// What a configuration comes to when what is not set is filled in.
pub open spec fn filled(m: ConfigView, v: ConfigView) -> bool {
    &&& m.sip == v.sip && m.iface_list == v.iface_list && m.stations.len() == v.stations.len()
    &&& m.iface == if v.iface.len() == 0 {
        "eth0.1"@
    } else {
        v.iface
    }
    &&& m.listen.addr == if v.listen.addr.len() == 0 {
        "0.0.0.0"@
    } else {
        v.listen.addr
    }
    &&& m.listen.port == if v.listen.port == 0 {
        8080
    } else {
        v.listen.port
    }
    &&& m.hass.ipaddr == v.hass.ipaddr && m.hass.api == v.hass.api && m.hass.token == v.hass.token
    &&& m.hass.port == if v.hass.port == 0 {
        8123
    } else {
        v.hass.port
    }
    &&& m.video.forward == v.video.forward && m.video.cache_path == v.video.cache_path
    &&& m.video.format == if v.video.format.len() == 0 {
        "flv"@
    } else {
        v.video.format
    }
    &&& m.automation.auto_unlock == v.automation.auto_unlock
    &&& m.automation.auto_hangup == v.automation.auto_hangup
    &&& forall|i: int|
        0 <= i < v.stations.len() ==> (#[trigger] m.stations[i]).sip == v.stations[i].sip
            && m.stations[i].rtsp_url == v.stations[i].rtsp_url
}

/// What is noted as filled in: the interface, the port of the server and the video format.
pub open spec fn noted(missing: Seq<Seq<char>>, v: ConfigView) -> bool {
    &&& missing.contains("iface"@) <==> v.iface.len() == 0
    &&& missing.contains("hass.port"@) <==> v.hass.port == 0
    &&& missing.contains("video.format"@) <==> v.video.format.len() == 0
    &&& forall|i: int|
        0 <= i < missing.len() ==> #[trigger] missing[i] == "iface"@ || missing[i] == "hass.port"@
            || missing[i] == "video.format"@
}

/// Whether a text is the address of some station.
pub open spec fn is_address(u: Seq<char>) -> bool {
    exists|name: Seq<char>, ip: Seq<u8>, port: u16|
        forms::is_number(name) && ip.len() == 4 && port >= 1 && u == #[trigger] forms::address(
            name,
            ip,
            port,
        )
}

proof fn lemma_all_hex(s: Seq<char>)
    requires
        forall|i: int| 0 <= i < s.len() ==> forms::hex_of(#[trigger] s[i]) is Some,
    ensures
        config::first_non_hex(s) is None,
    decreases s.len(),
{
    if s.len() > 0 {
        assert(forms::hex_of(s[0]) is Some);
        let r = s.drop_first();
        assert forall|i: int| 0 <= i < r.len() implies forms::hex_of(#[trigger] r[i]) is Some by {
            assert(r[i] == s[i + 1]);
        }
        lemma_all_hex(r);
    }
}

proof fn lemma_address_passes(u: Seq<char>)
    requires
        is_address(u),
    ensures
        config::uri_fault(u) is None,
        u.len() > 0,
{
    let (name, ip, port) = choose|name: Seq<char>, ip: Seq<u8>, port: u16|
        forms::is_number(name) && ip.len() == 4 && port >= 1 && u == #[trigger] forms::address(
            name,
            ip,
            port,
        );
    forms::lemma_address(name, ip, port);
    forms::lemma_number(name);
    forms::lemma_dotted(ip);
    lemma_all_hex(name);
    let d = forms::dotted(ip);
    let p = text::dec(port as nat);
    text::lemma_dec_reads_back(port as nat);
    assert(u.len() == 8 + 1 + d.len() + 1 + p.len());
    let hp = u.skip(9);
    assert(hp =~= d + seq![':'] + p);
    assert forall|j: int| d.len() < j < hp.len() implies hp[j] != ':' by {
        assert(hp[j] == p[j - d.len() - 1]);
        assert(text::is_digit(p[j - d.len() - 1]));
    }
    text::lemma_rfind_at(hp, ':', d.len() as int);
    assert(hp.skip(d.len() as int + 1) =~= p);
    assert(config::port_text(u) == p);
    config::law_split_uri_is_checked(u);
}

proof fn lemma_stations_pass(stations: Seq<StationView>, i: int)
    requires
        0 <= i <= stations.len(),
        forall|j: int| i <= j < stations.len() ==> is_address((#[trigger] stations[j]).sip),
    ensures
        config::stations_fault(stations, i) is None,
    decreases stations.len() - i,
{
    if i < stations.len() {
        lemma_address_passes(stations[i].sip);
        lemma_stations_pass(stations, i + 1);
    }
}

/// A file that sets everything, with addresses that are ones and a known video format or none,
/// gives the configuration that it describes, with defaults for what is empty.
#[verifier::rlimit(40)]
pub proof fn law_written_config_is_loaded(
    t: &str,
    r: Result<Config, ConfigError>,
    names: Seq<Seq<char>>,
    v: ConfigView,
)
    requires
        writable(names, v),
        t@ == file(config_lines(names, v)),
        is_address(v.sip),
        v.stations.len() > 0,
        forall|i: int| 0 <= i < v.stations.len() ==> is_address((#[trigger] v.stations[i]).sip),
        v.video.format == "flv"@ || v.video.format == "mjpeg"@ || v.video.format.len() == 0,
        call_ensures(config_from_text, (t,), r),
    ensures
        r matches Ok(c) && filled(c@, v) && noted(c@.missing, v) && c@.warnings.len() == 0,
{
    lemma_all_read(names, v);
    lemma_address_passes(v.sip);
    lemma_default_names();
    let (st, fault) = ini::file_step::<Config>(
        config::empty_config(),
        file(config_lines(names, v)),
    );
    let m = st.model;
    assert(m.stations =~= v.stations) by {
        assert forall|i: int| 0 <= i < m.stations.len() implies m.stations[i] == v.stations[i] by {
            assert(m.stations[i].sip == v.stations[i].sip);
        }
    }
    lemma_stations_pass(v.stations, 0);
    let d = config::with_defaults(ConfigView { warnings: st.warnings, ..m });
    lemma_noted(m);
    assert(noted(d.missing, v));
}

proof fn lemma_default_names()
    ensures
        "flv"@.len() == 3,
        "iface"@.len() == 5,
        "hass.port"@.len() == 9,
        "video.format"@.len() == 12,
{
    reveal_strlit("flv");
    reveal_strlit("iface");
    reveal_strlit("hass.port");
    reveal_strlit("video.format");
}

proof fn lemma_noted(m: ConfigView)
    ensures
        noted(config::with_defaults(m).missing, m),
{
    lemma_default_names();
    let l = config::with_defaults(m).missing;
    if m.iface.len() == 0 {
        assert(l[0] == "iface"@);
    }
    if m.hass.port == 0 {
        let k: int = if m.iface.len() == 0 {
            1
        } else {
            0
        };
        assert(l[k] == "hass.port"@);
    }
    if m.video.format.len() == 0 {
        assert(l.last() == "video.format"@);
    }
}

/// A configuration is refused for the first of these that holds, in this order: no address, one
/// that is none, no stations, a station without an address or with one that is none, and a video
/// format that is not known. The error names the setting and gives its value.
pub proof fn law_refused_settings(c: Config, r: Result<(), ConfigError>)
    requires
        call_ensures(Config::validate, (&c,), r),
    ensures
        c.sip@.len() == 0 ==> (r matches Err(ConfigError::Validation(e)) && e.field@ == "sip"@
            && e.value@.len() == 0 && e.want@
            == "non-empty SIP URI like 12345678@10.0.0.20:18022"@),
        is_address(c.sip@) && c.stations@.len() == 0 ==> (r matches Err(
            ConfigError::Validation(e),
        ) && e.field@ == "stations"@ && e.value@ == "0"@ && e.want@
            == "at least one station entry"@),
        r is Ok ==> c.stations@.len() > 0 && (c.video.format@ == "flv"@ || c.video.format@
            == "mjpeg"@),
        is_address(c.sip@) && c.stations@.len() > 0 && (forall|i: int|
            0 <= i < c.stations@.len() ==> is_address((#[trigger] c.stations@[i]).sip@)) ==> (r
            is Ok <==> c.video.format@ == "flv"@ || c.video.format@ == "mjpeg"@) && (r matches Err(
            e,
        ) ==> (e matches ConfigError::Validation(f) && f.field@ == "video.format"@ && f.value@
            == c.video.format@)),
{
    if is_address(c.sip@) {
        lemma_address_passes(c.sip@);
    }
    let n = c@.stations;
    assert(n.len() == c.stations@.len());
    if r is Err {
        assert(config::fault_of(r) == Some((r->Err_0)@));
    }
    if forall|i: int| 0 <= i < c.stations@.len() ==> is_address((#[trigger] c.stations@[i]).sip@) {
        assert forall|j: int| 0 <= j < n.len() implies is_address((#[trigger] n[j]).sip) by {
            assert(n[j] == c.stations@[j]@);
            assert(is_address(c.stations@[j].sip@));
        }
        lemma_stations_pass(n, 0);
    }
}

/// A station whose address is missing or is none is named by its place, and so is the first such
/// one.
pub proof fn law_refused_station(c: Config, r: Result<(), ConfigError>, k: int)
    requires
        call_ensures(Config::validate, (&c,), r),
        is_address(c.sip@),
        0 <= k < c.stations@.len(),
        forall|i: int| 0 <= i < k ==> is_address((#[trigger] c.stations@[i]).sip@),
        c.stations@[k].sip@.len() == 0,
    ensures
        r matches Err(ConfigError::Validation(e)) && e.field@ == "stations["@ + text::dec(k as nat)
            + "].sip"@ && e.value@.len() == 0 && e.want@ == "non-empty SIP URI"@,
{
    lemma_address_passes(c.sip@);
    let n = c@.stations;
    assert(n.len() == c.stations@.len());
    assert(n[k] == c.stations@[k]@);
    assert forall|i: int| 0 <= i < k implies is_address((#[trigger] n[i]).sip) by {
        assert(n[i] == c.stations@[i]@);
        assert(is_address(c.stations@[i].sip@));
    }
    lemma_first_refused(n, 0, k);
    assert(config::fault_of(r) == Some((r->Err_0)@));
}

proof fn lemma_first_refused(stations: Seq<StationView>, i: int, k: int)
    requires
        0 <= i <= k < stations.len(),
        forall|j: int| i <= j < k ==> is_address((#[trigger] stations[j]).sip),
    ensures
        config::stations_fault(stations, i) == config::stations_fault(stations, k),
    decreases k - i,
{
    if i < k {
        lemma_address_passes(stations[i].sip);
        lemma_first_refused(stations, i + 1, k);
    }
}

/// A comment behind a setting or a heading is not read, nor is a line that is nothing else.
pub proof fn law_comments_are_dropped(
    line: &[char],
    r: Option<String>,
    a: Seq<char>,
    comment: Seq<char>,
)
    requires
        call_ensures(ini::strip_comment_trim, (line,), r),
        forall|i: int| 0 <= i < a.len() ==> #[trigger] a[i] != '"' && a[i] != ';' && a[i] != '#',
        a.len() > 0 ==> !text::is_space(a[0]) && !text::is_space(a.last()),
        comment.len() > 0 ==> comment[0] == ';' || comment[0] == '#',
        comment.len() > 0 ==> !text::is_space(comment.last()),
        line@ == if comment.len() > 0 && a.len() > 0 {
            a + seq![' '] + comment
        } else {
            a + comment
        },
    ensures
        a.len() > 0 ==> (r matches Some(s) && s@ == a),
        a.len() == 0 ==> r is None,
{
    let s = line@;
    let n = if comment.len() > 0 && a.len() > 0 {
        a.len() + 1
    } else {
        a.len()
    };
    assert forall|i: int| 0 <= i < n implies #[trigger] s[i] != '"' && s[i] != ';' && s[i]
        != '#' by {
        if i < a.len() {
            assert(s[i] == a[i]);
        }
    }
    text::lemma_trim_tight(s);
    lemma_code_skip(s, false, n);
    assert(s.skip(n as int) =~= comment);
    assert(ini::code_len(comment, false) == 0);
    let t = s.take(n as int);
    if n > a.len() {
        assert(t =~= a.push(' '));
        assert(t.drop_last() =~= a);
    } else {
        assert(t =~= a);
    }
    assert(text::trim_end_blank(a) == a);
}

} // verus!
