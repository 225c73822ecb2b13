//! Strict JSON syntax with detailed messages, for the bodies of video requests.

use vstd::prelude::*;
use vstd::string::*;

use super::syntax;
use super::syntax::peek_is;
use crate::text;
use crate::text::{push_hex, push_zero_filled};

verus! {

/// The message for input that ends too early.
pub const JSON_EOF: &'static str = "unexpected end of JSON input";

/// A byte as it is shown in messages.
pub open spec fn quoted(c: u8) -> Seq<char> {
    if c == '\'' as u8 {
        "'\\''"@
    } else if c == '"' as u8 {
        "'\"'"@
    } else if c == '\\' as u8 {
        "'\\\\'"@
    } else if c == 7 {
        "'\\a'"@
    } else if c == 8 {
        "'\\b'"@
    } else if c == 12 {
        "'\\f'"@
    } else if c == 10 {
        "'\\n'"@
    } else if c == 13 {
        "'\\r'"@
    } else if c == 9 {
        "'\\t'"@
    } else if c == 11 {
        "'\\v'"@
    } else if 0x20 <= c <= 0x7e {
        seq!['\'', c as char, '\'']
    } else {
        "'\\x"@ + text::zero_fill(text::hex(c as nat), 2) + "'"@
    }
}

/// The message for a byte that may not stand where it does.
pub open spec fn bad_char(c: u8, place: Seq<char>) -> Seq<char> {
    "invalid character "@ + quoted(c) + place
}

/// What is wrong at `pos`: the input ends there, or the byte there may not stand there.
pub open spec fn fault_at(s: Seq<u8>, pos: int, place: Seq<char>) -> Seq<char> {
    if 0 <= pos < s.len() {
        bad_char(s[pos], place)
    } else {
        JSON_EOF@
    }
}

/// Space, tab, line feed, carriage return.
pub open spec fn is_blank_byte(b: u8) -> bool {
    b == 32 || b == 9 || b == 10 || b == 13
}

/// Behind the white space at `pos`.
pub open spec fn blank_end(s: Seq<u8>, pos: int) -> int
    decreases s.len() - pos,
{
    if 0 <= pos < s.len() && is_blank_byte(s[pos]) {
        blank_end(s, pos + 1)
    } else {
        pos
    }
}

/// Behind the hex digits of an escape, `n` of which are at `pos`.
pub open spec fn hex_end(s: Seq<u8>, pos: int, n: nat) -> Result<int, Seq<char>>
    decreases n,
{
    if n == 0 {
        Ok(pos)
    } else if 0 <= pos < s.len() && syntax::is_hex_byte(s[pos]) {
        hex_end(s, pos + 1, (n - 1) as nat)
    } else {
        Err(fault_at(s, pos, " in \\u hexadecimal character escape"@))
    }
}

/// Behind the string whose contents go on at `pos`.
pub open spec fn string_end(s: Seq<u8>, pos: int) -> Result<int, Seq<char>>
    decreases s.len() - pos,
{
    if !(0 <= pos < s.len()) {
        Err(JSON_EOF@)
    } else if s[pos] == '"' as u8 {
        Ok(pos + 1)
    } else if s[pos] == '\\' as u8 {
        if pos + 1 < s.len() && syntax::is_short_escape(s[pos + 1]) {
            string_end(s, pos + 2)
        } else if pos + 1 < s.len() && s[pos + 1] == 'u' as u8 {
            match hex_end(s, pos + 2, 4) {
                Ok(q) => if pos < q <= s.len() {
                    string_end(s, q)
                } else {
                    Err(JSON_EOF@)
                },
                Err(m) => Err(m),
            }
        } else {
            Err(fault_at(s, pos + 1, " in string escape code"@))
        }
    } else if s[pos] < 0x20 {
        Err(bad_char(s[pos], " in string literal"@))
    } else {
        string_end(s, pos + 1)
    }
}

/// Behind the literal at `pos`, of which the first `i` bytes are known to be right.
pub open spec fn literal_end(s: Seq<u8>, pos: int, lit: Seq<u8>, name: Seq<char>, i: int) -> Result<
    int,
    Seq<char>,
>
    decreases lit.len() - i,
{
    if i >= lit.len() {
        Ok(pos + i)
    } else if !(0 <= pos + i < s.len()) {
        Err(JSON_EOF@)
    } else if s[pos + i] != lit[i] {
        Err(
            bad_char(
                s[pos + i],
                " in literal "@ + name + " (expecting "@ + quoted(lit[i]) + ")"@,
            ),
        )
    } else {
        literal_end(s, pos, lit, name, i + 1)
    }
}

/// Behind the digits at `pos`, of which there must be one.
pub open spec fn digits_at(s: Seq<u8>, pos: int, place: Seq<char>) -> Result<int, Seq<char>> {
    if syntax::digit_at(s, pos) {
        Ok(syntax::digits_end(s, pos))
    } else {
        Err(fault_at(s, pos, place))
    }
}

/// Behind the fraction at `pos`, where there is one.
pub open spec fn fraction_end(s: Seq<u8>, pos: int) -> Result<int, Seq<char>> {
    if syntax::byte_is(s, pos, '.') {
        digits_at(s, pos + 1, " after decimal point in numeric literal"@)
    } else {
        Ok(pos)
    }
}

/// Behind the exponent at `pos`, where there is one.
pub open spec fn exponent_end(s: Seq<u8>, pos: int) -> Result<int, Seq<char>> {
    if syntax::byte_is(s, pos, 'e') || syntax::byte_is(s, pos, 'E') {
        digits_at(
            s,
            if syntax::byte_is(s, pos + 1, '+') || syntax::byte_is(s, pos + 1, '-') {
                pos + 2
            } else {
                pos + 1
            },
            " in exponent of numeric literal"@,
        )
    } else {
        Ok(pos)
    }
}

/// Behind the number at `pos`.
pub open spec fn number_end(s: Seq<u8>, pos: int) -> Result<int, Seq<char>> {
    let a = if syntax::byte_is(s, pos, '-') {
        pos + 1
    } else {
        pos
    };
    let whole = if syntax::byte_is(s, a, '0') {
        Ok(a + 1)
    } else {
        digits_at(s, a, " in numeric literal"@)
    };
    match whole {
        Err(m) => Err(m),
        Ok(b) => match fraction_end(s, b) {
            Err(m) => Err(m),
            Ok(c) => exponent_end(s, c),
        },
    }
}

/// Behind the value at `pos`.
pub open spec fn value_end(s: Seq<u8>, pos: int) -> Result<int, Seq<char>>
    decreases s.len() - pos, 1int,
{
    proof {
        lemma_blank_end(s, pos);
    }
    let p = blank_end(s, pos);
    if !(0 <= pos && p < s.len()) {
        Err(JSON_EOF@)
    } else if s[p] == '{' as u8 {
        object_end(s, p)
    } else if s[p] == '[' as u8 {
        array_end(s, p)
    } else if s[p] == '"' as u8 {
        string_end(s, p + 1)
    } else if s[p] == 't' as u8 {
        literal_end(s, p, "true".spec_bytes(), "true"@, 1)
    } else if s[p] == 'f' as u8 {
        literal_end(s, p, "false".spec_bytes(), "false"@, 1)
    } else if s[p] == 'n' as u8 {
        literal_end(s, p, "null".spec_bytes(), "null"@, 1)
    } else if syntax::digit_at(s, p) || s[p] == '-' as u8 {
        number_end(s, p)
    } else {
        Err(bad_char(s[p], " looking for beginning of value"@))
    }
}

/// Behind the object whose brace stands at `pos`.
pub open spec fn object_end(s: Seq<u8>, pos: int) -> Result<int, Seq<char>>
    decreases s.len() - pos, 0int,
{
    proof {
        lemma_blank_end(s, pos + 1);
    }
    let q = blank_end(s, pos + 1);
    if !(0 <= pos < s.len()) {
        Err(JSON_EOF@)
    } else if syntax::byte_is(s, q, '}') {
        Ok(q + 1)
    } else {
        members_end(s, q)
    }
}

/// Behind the members at `pos` and the brace that ends them.
pub open spec fn members_end(s: Seq<u8>, pos: int) -> Result<int, Seq<char>>
    decreases s.len() - pos, 0int,
{
    proof {
        lemma_blank_end(s, pos);
    }
    let q = blank_end(s, pos);
    if !(0 <= pos && syntax::byte_is(s, q, '"')) {
        Err(fault_at(s, q, " looking for beginning of object key string"@))
    } else {
        match string_end(s, q + 1) {
            Err(m) => Err(m),
            Ok(k) => {
                proof {
                    lemma_string_end(s, q + 1);
                    lemma_blank_end(s, k);
                }
                let c = blank_end(s, k);
                if !syntax::byte_is(s, c, ':') {
                    Err(fault_at(s, c, " after object key"@))
                } else {
                    match value_end(s, c + 1) {
                        Err(m) => Err(m),
                        Ok(v) => if !(c < v <= s.len()) {
                            Err(JSON_EOF@)
                        } else {
                            proof {
                                lemma_blank_end(s, v);
                            }
                            let e = blank_end(s, v);
                            if syntax::byte_is(s, e, ',') {
                                members_end(s, e + 1)
                            } else if syntax::byte_is(s, e, '}') {
                                Ok(e + 1)
                            } else {
                                Err(fault_at(s, e, " after object key:value pair"@))
                            }
                        },
                    }
                }
            },
        }
    }
}

/// Behind the array whose bracket stands at `pos`.
pub open spec fn array_end(s: Seq<u8>, pos: int) -> Result<int, Seq<char>>
    decreases s.len() - pos, 0int,
{
    proof {
        lemma_blank_end(s, pos + 1);
    }
    let q = blank_end(s, pos + 1);
    if !(0 <= pos < s.len()) {
        Err(JSON_EOF@)
    } else if syntax::byte_is(s, q, ']') {
        Ok(q + 1)
    } else {
        items_end(s, q)
    }
}

/// Behind the items at `pos` and the bracket that ends them.
pub open spec fn items_end(s: Seq<u8>, pos: int) -> Result<int, Seq<char>>
    decreases s.len() - pos, 2int,
{
    match value_end(s, pos) {
        Err(m) => Err(m),
        Ok(v) => if !(pos < v <= s.len()) {
            Err(JSON_EOF@)
        } else {
            proof {
                lemma_blank_end(s, v);
            }
            let e = blank_end(s, v);
            if syntax::byte_is(s, e, ',') {
                items_end(s, e + 1)
            } else if syntax::byte_is(s, e, ']') {
                Ok(e + 1)
            } else {
                Err(fault_at(s, e, " after array element"@))
            }
        },
    }
}

/// What is wrong with `s` as one JSON value with white space round it.
pub open spec fn text_fault(s: Seq<u8>) -> Option<Seq<char>> {
    match value_end(s, 0) {
        Err(m) => Some(m),
        Ok(p) => {
            let e = blank_end(s, p);
            if 0 <= e < s.len() {
                Some(bad_char(s[e], " after top-level value"@))
            } else {
                None
            }
        },
    }
}

pub proof fn lemma_blank_end(s: Seq<u8>, pos: int)
    ensures
        pos <= blank_end(s, pos),
        pos <= s.len() ==> blank_end(s, pos) <= s.len(),
    decreases s.len() - pos,
{
    if 0 <= pos < s.len() && is_blank_byte(s[pos]) {
        lemma_blank_end(s, pos + 1);
    }
}

pub proof fn lemma_hex_end(s: Seq<u8>, pos: int, n: nat)
    ensures
        hex_end(s, pos, n) matches Ok(q) ==> q == pos + n && (n > 0 ==> q <= s.len()),
    decreases n,
{
    if n > 0 && 0 <= pos < s.len() && syntax::is_hex_byte(s[pos]) {
        lemma_hex_end(s, pos + 1, (n - 1) as nat);
    }
}

pub proof fn lemma_string_end(s: Seq<u8>, pos: int)
    ensures
        string_end(s, pos) matches Ok(q) ==> pos < q <= s.len(),
    decreases s.len() - pos,
{
    if 0 <= pos < s.len() {
        if s[pos] == '"' as u8 {
        } else if s[pos] == '\\' as u8 {
            if pos + 1 < s.len() {
                if syntax::is_short_escape(s[pos + 1]) {
                    lemma_string_end(s, pos + 2);
                } else if s[pos + 1] == 'u' as u8 {
                    lemma_hex_end(s, pos + 2, 4);
                    match hex_end(s, pos + 2, 4) {
                        Ok(q) => lemma_string_end(s, q),
                        Err(_) => {},
                    }
                }
            }
        } else {
            lemma_string_end(s, pos + 1);
        }
    }
}

// ---------------------------------------------------------------------------
// Scanning
// ---------------------------------------------------------------------------

/// The outcome of a scan by its view.
pub open spec fn scan_view(r: Result<usize, String>) -> Result<int, Seq<char>> {
    match r {
        Ok(p) => Ok(p as int),
        Err(m) => Err(m@),
    }
}

/// A scan that goes forward and stays within the input.
pub open spec fn advances(r: Result<usize, String>, s: Seq<u8>, pos: int) -> bool {
    r matches Ok(p) ==> pos < p <= s.len()
}

/// Shows a byte.
pub fn quote_char(c: u8) -> (out: String)
    ensures
        out@ == quoted(c),
{
    if c == '\'' as u8 {
        "'\\''".to_owned()
    } else if c == '"' as u8 {
        "'\"'".to_owned()
    } else if c == '\\' as u8 {
        "'\\\\'".to_owned()
    } else if c == 7 {
        "'\\a'".to_owned()
    } else if c == 8 {
        "'\\b'".to_owned()
    } else if c == 12 {
        "'\\f'".to_owned()
    } else if c == 10 {
        "'\\n'".to_owned()
    } else if c == 13 {
        "'\\r'".to_owned()
    } else if c == 9 {
        "'\\t'".to_owned()
    } else if c == 11 {
        "'\\v'".to_owned()
    } else if 0x20 <= c && c <= 0x7e {
        let mut out = String::new();
        out.push('\'');
        out.push(c as char);
        out.push('\'');
        assert(out@ =~= quoted(c));
        out
    } else {
        let mut digits = String::new();
        push_hex(&mut digits, c as u64);
        assert(digits@ =~= text::hex(c as nat));
        let mut out = "'\\x".to_owned();
        push_zero_filled(&mut out, digits.as_str(), 2);
        out.append("'");
        out
    }
}

fn bad_byte(c: u8, place: &str) -> (out: String)
    ensures
        out@ == bad_char(c, place@),
{
    let mut out = "invalid character ".to_owned();
    out.append(quote_char(c).as_str());
    out.append(place);
    out
}

fn fault(s: &[u8], pos: usize, place: &str) -> (out: String)
    ensures
        out@ == fault_at(s@, pos as int, place@),
{
    if pos < s.len() {
        bad_byte(s[pos], place)
    } else {
        JSON_EOF.to_owned()
    }
}

fn skip_blank(s: &[u8], pos: usize) -> (p: usize)
    requires
        pos <= s@.len(),
    ensures
        p == blank_end(s@, pos as int),
        pos <= p <= s@.len() <= usize::MAX,
{
    let mut p: usize = pos;
    while p < s.len() && (s[p] == 32 || s[p] == 9 || s[p] == 10 || s[p] == 13)
        invariant
            pos <= p <= s@.len(),
            blank_end(s@, p as int) == blank_end(s@, pos as int),
        decreases s@.len() - p,
    {
        p += 1;
    }
    p
}

fn scan_hex4(s: &[u8], pos: usize) -> (r: Result<usize, String>)
    requires
        pos <= s@.len(),
    ensures
        scan_view(r) == hex_end(s@, pos as int, 4),
        r matches Ok(p) ==> p == pos + 4 && p <= s@.len(),
{
    let mut p: usize = pos;
    let mut n: usize = 4;
    while n > 0
        invariant
            n <= 4,
            p == pos + (4 - n),
            p <= s@.len(),
            hex_end(s@, p as int, n as nat) == hex_end(s@, pos as int, 4),
        decreases n,
    {
        if p >= s.len() || !(48 <= s[p] && s[p] <= 57 || 97 <= s[p] && s[p] <= 102 || 65 <= s[p]
            && s[p] <= 70) {
            return Err(fault(s, p, " in \\u hexadecimal character escape"));
        }
        p += 1;
        n -= 1;
    }
    Ok(p)
}

/// Scans a string whose contents begin at `pos`.
fn scan_string(s: &[u8], pos: usize) -> (r: Result<usize, String>)
    requires
        pos <= s@.len(),
    ensures
        scan_view(r) == string_end(s@, pos as int),
        advances(r, s@, pos as int),
{
    let mut p: usize = pos;
    while p < s.len()
        invariant
            pos <= p <= s@.len(),
            string_end(s@, p as int) == string_end(s@, pos as int),
        decreases s@.len() - p,
    {
        let b = s[p];
        if b == '"' as u8 {
            return Ok(p + 1);
        }
        if b == '\\' as u8 {
            if p + 1 >= s.len() {
                return Err(fault(s, p + 1, " in string escape code"));
            }
            let e = s[p + 1];
            if e == '"' as u8 || e == '\\' as u8 || e == '/' as u8 || e == 'b' as u8 || e
                == 'f' as u8 || e == 'n' as u8 || e == 'r' as u8 || e == 't' as u8 {
                p += 2;
            } else if e == 'u' as u8 {
                match scan_hex4(s, p + 2) {
                    Ok(q) => {
                        p = q;
                    },
                    Err(m) => return Err(m),
                }
            } else {
                return Err(fault(s, p + 1, " in string escape code"));
            }
        } else if b < 0x20 {
            return Err(bad_byte(b, " in string literal"));
        } else {
            p += 1;
        }
    }
    Err(JSON_EOF.to_owned())
}

/// Scans a literal whose first byte is known to be right.
fn scan_literal(s: &[u8], pos: usize, lit: &str) -> (r: Result<usize, String>)
    requires
        pos < s@.len(),
        lit.spec_bytes().len() >= 1,
    ensures
        scan_view(r) == literal_end(s@, pos as int, lit.spec_bytes(), lit@, 1),
        advances(r, s@, pos as int),
{
    let l = lit.as_bytes();
    let n: usize = s.len();
    let mut i: usize = 1;
    while i < l.len()
        invariant
            1 <= i <= l@.len(),
            l@ == lit.spec_bytes(),
            n == s@.len(),
            pos + i <= n,
            literal_end(s@, pos as int, l@, lit@, i as int) == literal_end(
                s@,
                pos as int,
                l@,
                lit@,
                1,
            ),
        decreases l@.len() - i,
    {
        if pos + i >= n {
            return Err(JSON_EOF.to_owned());
        }
        if s[pos + i] != l[i] {
            let mut place = " in literal ".to_owned();
            place.append(lit);
            place.append(" (expecting ");
            place.append(quote_char(l[i]).as_str());
            place.append(")");
            return Err(bad_byte(s[pos + i], place.as_str()));
        }
        i += 1;
    }
    Ok(pos + i)
}

fn scan_digits(s: &[u8], pos: usize, place: &str) -> (r: Result<usize, String>)
    requires
        pos <= s@.len(),
    ensures
        scan_view(r) == digits_at(s@, pos as int, place@),
        advances(r, s@, pos as int),
{
    if !(pos < s.len() && 48 <= s[pos] && s[pos] <= 57) {
        return Err(fault(s, pos, place));
    }
    let mut p: usize = pos + 1;
    while p < s.len() && 48 <= s[p] && s[p] <= 57
        invariant
            pos < p <= s@.len(),
            syntax::digits_end(s@, p as int) == syntax::digits_end(s@, pos as int),
        decreases s@.len() - p,
    {
        p += 1;
    }
    Ok(p)
}

/// Scans a number.
fn scan_number(s: &[u8], pos: usize) -> (r: Result<usize, String>)
    requires
        pos < s@.len(),
    ensures
        scan_view(r) == number_end(s@, pos as int),
        advances(r, s@, pos as int),
{
    let mut p: usize = pos;
    if peek_is(s, p, '-') {
        p += 1;
    }
    if peek_is(s, p, '0') {
        p += 1;
    } else {
        match scan_digits(s, p, " in numeric literal") {
            Ok(q) => {
                p = q;
            },
            Err(m) => return Err(m),
        }
    }
    if peek_is(s, p, '.') {
        match scan_digits(s, p + 1, " after decimal point in numeric literal") {
            Ok(q) => {
                p = q;
            },
            Err(m) => return Err(m),
        }
    }
    if peek_is(s, p, 'e') || peek_is(s, p, 'E') {
        p += 1;
        if peek_is(s, p, '+') || peek_is(s, p, '-') {
            p += 1;
        }
        match scan_digits(s, p, " in exponent of numeric literal") {
            Ok(q) => {
                p = q;
            },
            Err(m) => return Err(m),
        }
    }
    Ok(p)
}

/// Scans a value.
fn scan_value(s: &[u8], pos: usize) -> (r: Result<usize, String>)
    requires
        pos <= s@.len(),
    ensures
        scan_view(r) == value_end(s@, pos as int),
        advances(r, s@, pos as int),
    decreases s@.len() - pos, 1int,
{
    let p: usize = skip_blank(s, pos);
    if p >= s.len() {
        return Err(JSON_EOF.to_owned());
    }
    proof {
        syntax::lemma_literals();
    }
    let b = s[p];
    if b == '{' as u8 {
        scan_object(s, p)
    } else if b == '[' as u8 {
        scan_array(s, p)
    } else if b == '"' as u8 {
        scan_string(s, p + 1)
    } else if b == 't' as u8 {
        scan_literal(s, p, "true")
    } else if b == 'f' as u8 {
        scan_literal(s, p, "false")
    } else if b == 'n' as u8 {
        scan_literal(s, p, "null")
    } else if 48 <= b && b <= 57 || b == '-' as u8 {
        scan_number(s, p)
    } else {
        Err(bad_byte(b, " looking for beginning of value"))
    }
}

/// Scans an object whose brace stands at `pos`.
fn scan_object(s: &[u8], pos: usize) -> (r: Result<usize, String>)
    requires
        pos < s@.len(),
    ensures
        scan_view(r) == object_end(s@, pos as int),
        advances(r, s@, pos as int),
    decreases s@.len() - pos, 0int,
{
    assert(s.len() <= usize::MAX);
    let mut at: usize = skip_blank(s, pos + 1);
    if peek_is(s, at, '}') {
        return Ok(at + 1);
    }
    loop
        invariant
            pos < at <= s@.len(),
            members_end(s@, at as int) == object_end(s@, pos as int),
        decreases s@.len() - at,
    {
        let q: usize = skip_blank(s, at);
        if !peek_is(s, q, '"') {
            return Err(fault(s, q, " looking for beginning of object key string"));
        }
        let k: usize = match scan_string(s, q + 1) {
            Ok(k) => k,
            Err(m) => return Err(m),
        };
        let c: usize = skip_blank(s, k);
        if !peek_is(s, c, ':') {
            return Err(fault(s, c, " after object key"));
        }
        let v: usize = match scan_value(s, c + 1) {
            Ok(v) => v,
            Err(m) => return Err(m),
        };
        let e: usize = skip_blank(s, v);
        if peek_is(s, e, '}') {
            return Ok(e + 1);
        }
        if !peek_is(s, e, ',') {
            return Err(fault(s, e, " after object key:value pair"));
        }
        at = e + 1;
    }
}

/// Scans an array whose bracket stands at `pos`.
fn scan_array(s: &[u8], pos: usize) -> (r: Result<usize, String>)
    requires
        pos < s@.len(),
    ensures
        scan_view(r) == array_end(s@, pos as int),
        advances(r, s@, pos as int),
    decreases s@.len() - pos, 0int,
{
    assert(s.len() <= usize::MAX);
    let mut at: usize = skip_blank(s, pos + 1);
    if peek_is(s, at, ']') {
        return Ok(at + 1);
    }
    loop
        invariant
            pos < at <= s@.len(),
            items_end(s@, at as int) == array_end(s@, pos as int),
        decreases s@.len() - at,
    {
        let v: usize = match scan_value(s, at) {
            Ok(v) => v,
            Err(m) => return Err(m),
        };
        let e: usize = skip_blank(s, v);
        if peek_is(s, e, ']') {
            return Ok(e + 1);
        }
        if !peek_is(s, e, ',') {
            return Err(fault(s, e, " after array element"));
        }
        at = e + 1;
    }
}

/// Checks that `raw` is one JSON value.
pub fn json_syntax_check(raw: &[u8]) -> (r: Result<(), String>)
    ensures
        match r {
            Ok(_) => text_fault(raw@) is None,
            Err(m) => text_fault(raw@) == Some(m@),
        },
{
    let p: usize = match scan_value(raw, 0) {
        Ok(p) => p,
        Err(m) => return Err(m),
    };
    let e: usize = skip_blank(raw, p);
    if e < raw.len() {
        return Err(bad_byte(raw[e], " after top-level value"));
    }
    Ok(())
}

} // verus!
