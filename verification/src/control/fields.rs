//! Single fields of JSON objects.
//!
//! A field is looked up by name, in any letter case; of several with that name the last one
//! counts. Strings with escapes in them are not read.

use vstd::prelude::*;
use vstd::slice::slice_subrange;
use vstd::string::*;
use vstd::utf8::*;

use super::syntax;
use super::syntax::{expect_literal, parse_number, peek_is, skip_ws, trim_ascii_whitespace};
use crate::text;
use crate::text::{chars_eq_no_case, chars_of, str_eq};

verus! {

// ---------------------------------------------------------------------------
// Values
// ---------------------------------------------------------------------------

/// The quote that ends the string whose contents go on at `pos`.
pub open spec fn closing_quote(s: Seq<u8>, pos: int) -> Result<int, Seq<char>>
    decreases s.len() - pos,
{
    if !(0 <= pos < s.len()) {
        Err("unterminated string"@)
    } else if s[pos] == '"' as u8 {
        Ok(pos)
    } else if s[pos] == '\\' as u8 {
        Err("escaped key not supported"@)
    } else if s[pos] < 0x20 {
        Err("control char in string"@)
    } else {
        closing_quote(s, pos + 1)
    }
}

/// The text of the string at `pos`, and the position behind it.
pub open spec fn string_at(s: Seq<u8>, pos: int) -> Result<(Seq<char>, int), Seq<char>> {
    if !syntax::byte_is(s, pos, '"') {
        Err("expected string key"@)
    } else {
        match closing_quote(s, pos + 1) {
            Err(m) => Err(m),
            Ok(q) => if !valid_utf8(s.subrange(pos + 1, q)) {
                Err("invalid UTF-8"@)
            } else {
                Ok((decode_utf8(s.subrange(pos + 1, q)), q + 1))
            },
        }
    }
}

/// Whether `lit` stands at `pos`.
pub open spec fn stands_at(s: Seq<u8>, pos: int, lit: Seq<u8>) -> bool {
    0 <= pos && pos + lit.len() <= s.len() && s.subrange(pos, pos + lit.len()) == lit
}

/// The flag at `pos`, `null` being false, and the position behind it.
pub open spec fn flag_at(s: Seq<u8>, pos: int) -> Result<(bool, int), Seq<char>> {
    if stands_at(s, pos, "true".spec_bytes()) {
        Ok((true, pos + 4))
    } else if stands_at(s, pos, "false".spec_bytes()) {
        Ok((false, pos + 5))
    } else if stands_at(s, pos, "null".spec_bytes()) {
        Ok((false, pos + 4))
    } else {
        Err("expected bool"@)
    }
}

/// Behind the value at `pos`.
pub open spec fn value_end(s: Seq<u8>, pos: int) -> Result<int, Seq<char>>
    decreases s.len() - pos, 1int,
{
    proof {
        syntax::lemma_ws_end(s, pos);
    }
    let p = syntax::ws_end(s, pos);
    if !(0 <= pos && p < s.len()) {
        Err("invalid JSON value"@)
    } else if s[p] == '"' as u8 {
        match string_at(s, p) {
            Ok((_, q)) => Ok(q),
            Err(m) => Err(m),
        }
    } else if s[p] == '{' as u8 {
        object_end(s, p)
    } else if s[p] == '[' as u8 {
        array_end(s, p)
    } else if s[p] == 't' as u8 {
        syntax::literal_end(s, p, "true".spec_bytes())
    } else if s[p] == 'f' as u8 {
        syntax::literal_end(s, p, "false".spec_bytes())
    } else if s[p] == 'n' as u8 {
        syntax::literal_end(s, p, "null".spec_bytes())
    } else if syntax::digit_at(s, p) || s[p] == '-' as u8 {
        Ok(syntax::number_end(s, p))
    } else {
        Err("invalid JSON value"@)
    }
}

/// Behind the object whose brace stands at `pos`.
pub open spec fn object_end(s: Seq<u8>, pos: int) -> Result<int, Seq<char>>
    decreases s.len() - pos, 0int,
{
    proof {
        syntax::lemma_ws_end(s, pos + 1);
    }
    let q = syntax::ws_end(s, pos + 1);
    if !(0 <= pos < s.len()) {
        Err("invalid JSON value"@)
    } else if syntax::byte_is(s, q, '}') {
        Ok(q + 1)
    } else {
        members_end(s, q)
    }
}

/// Behind the members at `pos` and the brace that ends them.
pub open spec fn members_end(s: Seq<u8>, pos: int) -> Result<int, Seq<char>>
    decreases s.len() - pos, 0int,
{
    proof {
        syntax::lemma_ws_end(s, pos);
    }
    match string_at(s, syntax::ws_end(s, pos)) {
        Err(m) => Err(m),
        Ok((_, k)) => {
            proof {
                lemma_string_at(s, syntax::ws_end(s, pos));
                syntax::lemma_ws_end(s, k);
            }
            let c = syntax::ws_end(s, k);
            if !syntax::byte_is(s, c, ':') {
                Err("expected colon"@)
            } else {
                match value_end(s, c + 1) {
                    Err(m) => Err(m),
                    Ok(v) => if !(c < v <= s.len()) {
                        Err("invalid JSON value"@)
                    } else {
                        proof {
                            syntax::lemma_ws_end(s, v);
                        }
                        let e = syntax::ws_end(s, v);
                        if syntax::byte_is(s, e, '}') {
                            Ok(e + 1)
                        } else if syntax::byte_is(s, e, ',') {
                            members_end(s, e + 1)
                        } else {
                            Err("expected comma or closing brace"@)
                        }
                    },
                }
            }
        },
    }
}

/// Behind the array whose bracket stands at `pos`.
pub open spec fn array_end(s: Seq<u8>, pos: int) -> Result<int, Seq<char>>
    decreases s.len() - pos, 0int,
{
    proof {
        syntax::lemma_ws_end(s, pos + 1);
    }
    let q = syntax::ws_end(s, pos + 1);
    if !(0 <= pos < s.len()) {
        Err("invalid JSON value"@)
    } else if syntax::byte_is(s, q, ']') {
        Ok(q + 1)
    } else {
        items_end(s, q)
    }
}

/// Behind the items at `pos` and the bracket that ends them.
pub open spec fn items_end(s: Seq<u8>, pos: int) -> Result<int, Seq<char>>
    decreases s.len() - pos, 2int,
{
    match value_end(s, pos) {
        Err(m) => Err(m),
        Ok(v) => if !(pos < v <= s.len()) {
            Err("invalid JSON value"@)
        } else {
            proof {
                syntax::lemma_ws_end(s, v);
            }
            let e = syntax::ws_end(s, v);
            if syntax::byte_is(s, e, ']') {
                Ok(e + 1)
            } else if syntax::byte_is(s, e, ',') {
                items_end(s, e + 1)
            } else {
                Err("expected comma or closing bracket"@)
            }
        },
    }
}

pub proof fn lemma_closing_quote(s: Seq<u8>, pos: int)
    ensures
        closing_quote(s, pos) matches Ok(q) ==> pos <= q < s.len(),
    decreases s.len() - pos,
{
    if 0 <= pos < s.len() && s[pos] != '"' as u8 && s[pos] != '\\' as u8 && s[pos] >= 0x20 {
        lemma_closing_quote(s, pos + 1);
    }
}

pub proof fn lemma_string_at(s: Seq<u8>, pos: int)
    ensures
        string_at(s, pos) matches Ok((_, q)) ==> 0 <= pos && pos + 1 < q <= s.len(),
{
    lemma_closing_quote(s, pos + 1);
}

/// Reads the string at `pos`.
pub fn read_json_string(s: &[u8], pos: usize) -> (r: Result<(String, usize), &'static str>)
    requires
        pos <= s@.len(),
    ensures
        match r {
            Ok((t, q)) => string_at(s@, pos as int) == Ok::<_, Seq<char>>((t@, q as int)) && pos < q
                <= s@.len(),
            Err(m) => string_at(s@, pos as int) == Err::<(Seq<char>, int), _>(m@),
        },
{
    if !peek_is(s, pos, '"') {
        return Err("expected string key");
    }
    let mut p: usize = pos + 1;
    while p < s.len()
        invariant
            pos < p <= s@.len(),
            syntax::byte_is(s@, pos as int, '"'),
            closing_quote(s@, p as int) == closing_quote(s@, pos + 1),
        decreases s@.len() - p,
    {
        let b = s[p];
        if b == '"' as u8 {
            return match core::str::from_utf8(slice_subrange(s, pos + 1, p)) {
                Ok(t) => {
                    proof {
                        encode_utf8_decode_utf8(t@);
                    }
                    Ok((t.to_owned(), p + 1))
                },
                Err(_) => Err("invalid UTF-8"),
            };
        }
        if b == '\\' as u8 {
            return Err("escaped key not supported");
        }
        if b < 0x20 {
            return Err("control char in string");
        }
        p += 1;
    }
    Err("unterminated string")
}

fn starts_at(s: &[u8], pos: usize, lit: &str) -> (r: bool)
    requires
        pos <= s@.len(),
    ensures
        r == stands_at(s@, pos as int, lit.spec_bytes()),
{
    expect_literal(s, pos, lit).is_ok()
}

/// Reads the flag at `pos`.
pub fn read_json_bool(s: &[u8], pos: usize) -> (r: Result<(bool, usize), &'static str>)
    requires
        pos <= s@.len(),
    ensures
        match r {
            Ok((b, q)) => flag_at(s@, pos as int) == Ok::<_, Seq<char>>((b, q as int)) && pos < q
                <= s@.len(),
            Err(m) => flag_at(s@, pos as int) == Err::<(bool, int), _>(m@),
        },
{
    proof {
        syntax::lemma_literals();
    }
    assert(s.len() <= usize::MAX);
    if starts_at(s, pos, "true") {
        return Ok((true, pos + 4));
    }
    if starts_at(s, pos, "false") {
        return Ok((false, pos + 5));
    }
    if starts_at(s, pos, "null") {
        return Ok((false, pos + 4));
    }
    Err("expected bool")
}

/// Skips the value at `pos`.
pub fn skip_json_value(s: &[u8], pos: usize) -> (r: Result<usize, &'static str>)
    requires
        pos <= s@.len(),
    ensures
        syntax::scan_view(r) == value_end(s@, pos as int),
        syntax::advances(r, s@, pos as int),
    decreases s@.len() - pos, 1int,
{
    let p: usize = skip_ws(s, pos);
    if p >= s.len() {
        return Err("invalid JSON value");
    }
    proof {
        syntax::lemma_literals();
    }
    let b = s[p];
    if b == '"' as u8 {
        match read_json_string(s, p) {
            Ok((_, q)) => Ok(q),
            Err(m) => Err(m),
        }
    } else if b == '{' as u8 {
        skip_json_object(s, p)
    } else if b == '[' as u8 {
        skip_json_array(s, p)
    } else if b == 't' as u8 {
        expect_literal(s, p, "true")
    } else if b == 'f' as u8 {
        expect_literal(s, p, "false")
    } else if b == 'n' as u8 {
        expect_literal(s, p, "null")
    } else if 48 <= b && b <= 57 || b == '-' as u8 {
        proof {
            syntax::lemma_number_end(s@, p as int);
        }
        Ok(parse_number(s, p))
    } else {
        Err("invalid JSON value")
    }
}

/// Skips the object whose brace stands at `pos`.
pub fn skip_json_object(s: &[u8], pos: usize) -> (r: Result<usize, &'static str>)
    requires
        pos < s@.len(),
    ensures
        syntax::scan_view(r) == object_end(s@, pos as int),
        syntax::advances(r, s@, pos as int),
    decreases s@.len() - pos, 0int,
{
    assert(s.len() <= usize::MAX);
    let mut at: usize = skip_ws(s, pos + 1);
    if peek_is(s, at, '}') {
        return Ok(at + 1);
    }
    loop
        invariant
            pos < at <= s@.len(),
            members_end(s@, at as int) == object_end(s@, pos as int),
        decreases s@.len() - at,
    {
        let k: usize = match read_json_string(s, skip_ws(s, at)) {
            Ok((_, k)) => k,
            Err(m) => return Err(m),
        };
        let c: usize = skip_ws(s, k);
        if !peek_is(s, c, ':') {
            return Err("expected colon");
        }
        let v: usize = match skip_json_value(s, c + 1) {
            Ok(v) => v,
            Err(m) => return Err(m),
        };
        let e: usize = skip_ws(s, v);
        if peek_is(s, e, '}') {
            return Ok(e + 1);
        }
        if !peek_is(s, e, ',') {
            return Err("expected comma or closing brace");
        }
        at = e + 1;
    }
}

/// Skips the array whose bracket stands at `pos`.
pub fn skip_json_array(s: &[u8], pos: usize) -> (r: Result<usize, &'static str>)
    requires
        pos < s@.len(),
    ensures
        syntax::scan_view(r) == array_end(s@, pos as int),
        syntax::advances(r, s@, pos as int),
    decreases s@.len() - pos, 0int,
{
    assert(s.len() <= usize::MAX);
    let mut at: usize = skip_ws(s, pos + 1);
    if peek_is(s, at, ']') {
        return Ok(at + 1);
    }
    loop
        invariant
            pos < at <= s@.len(),
            items_end(s@, at as int) == array_end(s@, pos as int),
        decreases s@.len() - at,
    {
        let v: usize = match skip_json_value(s, at) {
            Ok(v) => v,
            Err(m) => return Err(m),
        };
        let e: usize = skip_ws(s, v);
        if peek_is(s, e, ']') {
            return Ok(e + 1);
        }
        if !peek_is(s, e, ',') {
            return Err("expected comma or closing bracket");
        }
        at = e + 1;
    }
}

// ---------------------------------------------------------------------------
// Fields
// ---------------------------------------------------------------------------

/// Behind the value at `pos` of a field with the name looked for: a string, or a flag.
pub open spec fn wanted_end(s: Seq<u8>, pos: int, flag: bool) -> Result<int, Seq<char>> {
    if flag {
        match flag_at(s, pos) {
            Ok((_, q)) => Ok(q),
            Err(m) => Err(m),
        }
    } else {
        match string_at(s, pos) {
            Ok((_, q)) => Ok(q),
            Err(m) => Err(m),
        }
    }
}

/// Position of the value of the last field named `key` among those at `pos` and behind it, or
/// `last` where there is none.
pub open spec fn last_field(
    s: Seq<u8>,
    pos: int,
    key: Seq<char>,
    flag: bool,
    last: Option<int>,
) -> Result<int, Seq<char>>
    decreases s.len() - pos,
{
    proof {
        syntax::lemma_ws_end(s, pos);
    }
    match string_at(s, syntax::ws_end(s, pos)) {
        Err(m) => Err(m),
        Ok((name, k)) => {
            proof {
                lemma_string_at(s, syntax::ws_end(s, pos));
                syntax::lemma_ws_end(s, k);
            }
            let c = syntax::ws_end(s, k);
            if !syntax::byte_is(s, c, ':') {
                Err("expected colon"@)
            } else {
                let at = syntax::ws_end(s, c + 1);
                let wanted = text::eq_no_case(name, key);
                match if wanted {
                    wanted_end(s, at, flag)
                } else {
                    value_end(s, at)
                } {
                    Err(m) => Err(m),
                    Ok(v) => if !(c < v <= s.len()) {
                        Err("invalid JSON value"@)
                    } else {
                        proof {
                            syntax::lemma_ws_end(s, v);
                        }
                        let e = syntax::ws_end(s, v);
                        let last = if wanted {
                            Some(at)
                        } else {
                            last
                        };
                        if syntax::byte_is(s, e, ',') {
                            last_field(s, e + 1, key, flag, last)
                        } else if syntax::byte_is(s, e, '}') {
                            match last {
                                Some(i) => Ok(i),
                                None => Err("missing field"@),
                            }
                        } else {
                            Err("expected comma or closing brace"@)
                        }
                    },
                }
            }
        },
    }
}

/// Position of the value of the field `key` of the object `s`.
pub open spec fn field_at(s: Seq<u8>, key: Seq<char>, flag: bool) -> Result<int, Seq<char>> {
    if !syntax::byte_is(s, 0, '{') {
        Err("expected object"@)
    } else if syntax::byte_is(s, syntax::ws_end(s, 1), '}') {
        Err("missing field"@)
    } else {
        last_field(s, syntax::ws_end(s, 1), key, flag, None)
    }
}

/// The text of the field `key`.
pub open spec fn string_field(input: Seq<u8>, key: Seq<char>) -> Result<Seq<char>, Seq<char>> {
    let s = syntax::trimmed(input);
    match field_at(s, key, false) {
        Err(m) => Err(m),
        Ok(at) => match string_at(s, at) {
            Ok((t, _)) => Ok(t),
            Err(m) => Err(m),
        },
    }
}

/// The flag of the field `key`.
pub open spec fn flag_field(input: Seq<u8>, key: Seq<char>) -> Result<bool, Seq<char>> {
    let s = syntax::trimmed(input);
    match field_at(s, key, true) {
        Err(m) => Err(m),
        Ok(at) => match flag_at(s, at) {
            Ok((b, _)) => Ok(b),
            Err(m) => Err(m),
        },
    }
}

fn skip_wanted(s: &[u8], pos: usize, flag: bool) -> (r: Result<usize, &'static str>)
    requires
        pos <= s@.len(),
    ensures
        syntax::scan_view(r) == wanted_end(s@, pos as int, flag),
        syntax::advances(r, s@, pos as int),
{
    if flag {
        match read_json_bool(s, pos) {
            Ok((_, q)) => Ok(q),
            Err(m) => Err(m),
        }
    } else {
        match read_json_string(s, pos) {
            Ok((_, q)) => Ok(q),
            Err(m) => Err(m),
        }
    }
}

fn find_field(s: &[u8], key: &str, flag: bool) -> (r: Result<usize, &'static str>)
    ensures
        syntax::scan_view(r) == field_at(s@, key@, flag),
        r matches Ok(p) ==> p <= s@.len(),
{
    if !peek_is(s, 0, '{') {
        return Err("expected object");
    }
    let mut pos: usize = skip_ws(s, 1);
    if peek_is(s, pos, '}') {
        return Err("missing field");
    }
    let mut last: Option<usize> = None;
    let ghost mut last_at: Option<int> = None;
    loop
        invariant
            pos <= s@.len(),
            last_at == match last {
                Some(i) => Some(i as int),
                None => None,
            },
            last matches Some(i) ==> i <= s@.len(),
            last_field(s@, pos as int, key@, flag, last_at) == field_at(s@, key@, flag),
        decreases s@.len() - pos,
    {
        let (name, k) = match read_json_string(s, skip_ws(s, pos)) {
            Ok(p) => p,
            Err(m) => return Err(m),
        };
        let c: usize = skip_ws(s, k);
        if !peek_is(s, c, ':') {
            return Err("expected colon");
        }
        let at: usize = skip_ws(s, c + 1);
        let wanted = chars_eq_no_case(chars_of(name.as_str()).as_slice(), key);
        let v: usize = match if wanted {
            skip_wanted(s, at, flag)
        } else {
            skip_json_value(s, at)
        } {
            Ok(v) => v,
            Err(m) => return Err(m),
        };
        let e: usize = skip_ws(s, v);
        if wanted {
            last = Some(at);
            proof {
                last_at = Some(at as int);
            }
        }
        if peek_is(s, e, ',') {
            pos = e + 1;
        } else if peek_is(s, e, '}') {
            return match last {
                Some(i) => Ok(i),
                None => Err("missing field"),
            };
        } else {
            return Err("expected comma or closing brace");
        }
    }
}

/// Reads the text of the field `key`.
pub fn extract_json_string_field(input: &[u8], key: &str) -> (r: Result<String, &'static str>)
    ensures
        match r {
            Ok(t) => string_field(input@, key@) == Ok::<_, Seq<char>>(t@),
            Err(m) => string_field(input@, key@) == Err::<Seq<char>, _>(m@),
        },
{
    let s = trim_ascii_whitespace(input);
    match find_field(s, key, false) {
        Err(m) => Err(m),
        Ok(at) => match read_json_string(s, at) {
            Ok((t, _)) => Ok(t),
            Err(m) => Err(m),
        },
    }
}

/// Reads the flag of the field `key`.
pub fn extract_json_bool_field(input: &[u8], key: &str) -> (r: Result<bool, &'static str>)
    ensures
        match r {
            Ok(b) => flag_field(input@, key@) == Ok::<_, Seq<char>>(b),
            Err(m) => flag_field(input@, key@) == Err::<bool, _>(m@),
        },
{
    let s = trim_ascii_whitespace(input);
    match find_field(s, key, true) {
        Err(m) => Err(m),
        Ok(at) => match read_json_bool(s, at) {
            Ok((b, _)) => Ok(b),
            Err(m) => Err(m),
        },
    }
}

// ---------------------------------------------------------------------------
// Bodies
// ---------------------------------------------------------------------------

/// The text of a field, empty where it is missing or cannot be read.
pub open spec fn text_or_empty(raw: Seq<u8>, key: Seq<char>) -> Seq<char> {
    if raw.len() == 0 {
        Seq::empty()
    } else {
        match string_field(syntax::trimmed(raw), key) {
            Ok(t) => t,
            Err(_) => Seq::empty(),
        }
    }
}

/// The flag `on` of a body. An empty body, `null` and a missing field are false.
pub open spec fn toggle_value(raw: Seq<u8>) -> Result<bool, Seq<char>> {
    let t = syntax::trimmed(raw);
    if raw.len() == 0 || t == "null".spec_bytes() {
        Ok(false)
    } else {
        match flag_field(t, "on"@) {
            Ok(b) => Ok(b),
            Err(m) => if m == "missing field"@ {
                Ok(false)
            } else {
                Err("parse JSON body: "@ + m)
            },
        }
    }
}

/// Reads the text of a field, empty where it is missing or cannot be read.
pub fn field_or_empty(raw: &[u8], key: &str) -> (out: String)
    ensures
        out@ == text_or_empty(raw@, key@),
{
    if raw.len() == 0 {
        return String::new();
    }
    match extract_json_string_field(trim_ascii_whitespace(raw), key) {
        Ok(t) => t,
        Err(_) => String::new(),
    }
}

/// Reads the fields `from` and `to` of the body of an unlock request; one that is missing or
/// cannot be read is empty.
pub fn parse_unlock_body(raw: &[u8]) -> (r: Result<(String, String), String>)
    ensures
        r matches Ok((from, to)) && from@ == text_or_empty(raw@, "from"@) && to@ == text_or_empty(
            raw@,
            "to"@,
        ),
{
    Ok((field_or_empty(raw, "from"), field_or_empty(raw, "to")))
}

/// Reads the flag `on` of a body.
pub fn parse_auto_toggle_body(raw: &[u8]) -> (r: Result<bool, String>)
    ensures
        match r {
            Ok(b) => toggle_value(raw@) == Ok::<_, Seq<char>>(b),
            Err(m) => toggle_value(raw@) == Err::<bool, _>(m@),
        },
{
    if raw.len() == 0 {
        return Ok(false);
    }
    let t = trim_ascii_whitespace(raw);
    proof {
        syntax::lemma_literals();
        if t@ == "null".spec_bytes() {
            assert(t@.subrange(0, t@.len() as int) =~= t@);
        }
        if t@.len() == 4 {
            assert(t@.subrange(0, 4) =~= t@);
        }
    }
    if t.len() == 4 && starts_at(t, 0, "null") {
        return Ok(false);
    }
    match extract_json_bool_field(t, "on") {
        Ok(b) => Ok(b),
        Err(m) => {
            if str_eq(m, "missing field") {
                return Ok(false);
            }
            let mut out = "parse JSON body: ".to_owned();
            out.append(m);
            Err(out)
        },
    }
}

} // verus!
