//! Syntax of JSON bodies.
//!
//! A body is accepted if it is one JSON value, numbers being taken loosely: digits may be
//! missing behind a sign, a point or an exponent. The scanning functions give the position
//! behind what they scan, or say what is wrong.

use vstd::prelude::*;
use vstd::slice::slice_subrange;
use vstd::string::*;

verus! {

/// ASCII white space: tab, line feed, form feed, carriage return, space.
pub open spec fn is_ws(b: u8) -> bool {
    b == 9 || b == 10 || b == 12 || b == 13 || b == 32
}

/// Whether the byte at `pos` is `b`.
pub open spec fn byte_is(s: Seq<u8>, pos: int, b: char) -> bool {
    0 <= pos < s.len() && s[pos] == b as u8
}

/// Whether a digit stands at `pos`.
pub open spec fn digit_at(s: Seq<u8>, pos: int) -> bool {
    0 <= pos < s.len() && 48 <= s[pos] <= 57
}

/// Whether a hex digit stands at `pos`.
pub open spec fn is_hex_byte(b: u8) -> bool {
    48 <= b <= 57 || 97 <= b <= 102 || 65 <= b <= 70
}

/// Behind the white space at `pos`.
pub open spec fn ws_end(s: Seq<u8>, pos: int) -> int
    decreases s.len() - pos,
{
    if 0 <= pos < s.len() && is_ws(s[pos]) {
        ws_end(s, pos + 1)
    } else {
        pos
    }
}

/// Behind the digits at `pos`.
pub open spec fn digits_end(s: Seq<u8>, pos: int) -> int
    decreases s.len() - pos,
{
    if digit_at(s, pos) {
        digits_end(s, pos + 1)
    } else {
        pos
    }
}

/// Behind the number at `pos`.
pub open spec fn number_end(s: Seq<u8>, pos: int) -> int {
    let a = if byte_is(s, pos, '-') {
        pos + 1
    } else {
        pos
    };
    let b = if byte_is(s, a, '0') {
        a + 1
    } else {
        digits_end(s, a)
    };
    let c = if byte_is(s, b, '.') {
        digits_end(s, b + 1)
    } else {
        b
    };
    if byte_is(s, c, 'e') || byte_is(s, c, 'E') {
        digits_end(
            s,
            if byte_is(s, c + 1, '+') || byte_is(s, c + 1, '-') {
                c + 2
            } else {
                c + 1
            },
        )
    } else {
        c
    }
}

/// Behind the `n` hex digits at `pos`.
pub open spec fn hex_end(s: Seq<u8>, pos: int, n: nat) -> Result<int, Seq<char>>
    decreases n,
{
    if n == 0 {
        Ok(pos)
    } else if !(0 <= pos < s.len()) {
        Err("truncated unicode escape"@)
    } else if !is_hex_byte(s[pos]) {
        Err("invalid unicode escape"@)
    } else {
        hex_end(s, pos + 1, (n - 1) as nat)
    }
}

/// Whether `b` may follow a backslash and is the whole escape.
pub open spec fn is_short_escape(b: u8) -> bool {
    b == '"' as u8 || b == '\\' as u8 || b == '/' as u8 || b == 'b' as u8 || b == 'f' as u8 || b
        == 'n' as u8 || b == 'r' as u8 || b == 't' as u8
}

/// Behind the string whose contents go on at `pos`.
pub open spec fn string_end(s: Seq<u8>, pos: int) -> Result<int, Seq<char>>
    decreases s.len() - pos,
{
    if !(0 <= pos < s.len()) {
        Err("unterminated string"@)
    } else if s[pos] == '"' as u8 {
        Ok(pos + 1)
    } else if s[pos] == '\\' as u8 {
        if pos + 1 >= s.len() {
            Err("truncated escape"@)
        } else if is_short_escape(s[pos + 1]) {
            string_end(s, pos + 2)
        } else if s[pos + 1] == 'u' as u8 {
            match hex_end(s, pos + 2, 4) {
                Ok(q) => if pos < q <= s.len() {
                    string_end(s, q)
                } else {
                    Err("invalid unicode escape"@)
                },
                Err(m) => Err(m),
            }
        } else {
            Err("invalid escape"@)
        }
    } else if s[pos] < 0x20 {
        Err("control char in string"@)
    } else {
        string_end(s, pos + 1)
    }
}

/// Behind the literal at `pos`.
pub open spec fn literal_end(s: Seq<u8>, pos: int, lit: Seq<u8>) -> Result<int, Seq<char>> {
    if pos + lit.len() <= s.len() && s.subrange(pos, pos + lit.len()) == lit {
        Ok(pos + lit.len())
    } else {
        Err("invalid literal"@)
    }
}

/// Behind the value at `pos`.
pub open spec fn value_end(s: Seq<u8>, pos: int) -> Result<int, Seq<char>>
    decreases s.len() - pos, 1int,
{
    proof {
        lemma_ws_end(s, pos);
    }
    let p = ws_end(s, pos);
    if !(0 <= pos && p < s.len()) {
        Err("invalid JSON value"@)
    } else if s[p] == '{' as u8 {
        object_end(s, p)
    } else if s[p] == '[' as u8 {
        array_end(s, p)
    } else if s[p] == '"' as u8 {
        string_end(s, p + 1)
    } else if s[p] == 't' as u8 {
        literal_end(s, p, "true".spec_bytes())
    } else if s[p] == 'f' as u8 {
        literal_end(s, p, "false".spec_bytes())
    } else if s[p] == 'n' as u8 {
        literal_end(s, p, "null".spec_bytes())
    } else if digit_at(s, p) || s[p] == '-' as u8 {
        Ok(number_end(s, p))
    } else {
        Err("invalid JSON value"@)
    }
}

/// Behind the object whose brace stands at `pos`.
pub open spec fn object_end(s: Seq<u8>, pos: int) -> Result<int, Seq<char>>
    decreases s.len() - pos, 0int,
{
    proof {
        lemma_ws_end(s, pos + 1);
    }
    let q = ws_end(s, pos + 1);
    if !(0 <= pos < s.len()) {
        Err("invalid JSON value"@)
    } else if byte_is(s, q, '}') {
        Ok(q + 1)
    } else {
        members_end(s, q)
    }
}

/// Behind the members at `pos` and the brace that ends them.
pub open spec fn members_end(s: Seq<u8>, pos: int) -> Result<int, Seq<char>>
    decreases s.len() - pos, 0int,
{
    proof {
        lemma_ws_end(s, pos);
    }
    let q = ws_end(s, pos);
    if !(0 <= pos && byte_is(s, q, '"')) {
        Err("expected object key"@)
    } else {
        match string_end(s, q + 1) {
            Err(m) => Err(m),
            Ok(k) => {
                proof {
                    lemma_string_end(s, q + 1);
                    lemma_ws_end(s, k);
                }
                let c = ws_end(s, k);
                if !byte_is(s, c, ':') {
                    Err("expected colon"@)
                } else {
                    match value_end(s, c + 1) {
                        Err(m) => Err(m),
                        Ok(v) => if !(c < v <= s.len()) {
                            Err("invalid JSON value"@)
                        } else {
                            proof {
                                lemma_ws_end(s, v);
                            }
                            let e = ws_end(s, v);
                            if byte_is(s, e, '}') {
                                Ok(e + 1)
                            } else if byte_is(s, e, ',') {
                                members_end(s, e + 1)
                            } else {
                                Err("expected comma or closing brace"@)
                            }
                        },
                    }
                }
            },
        }
    }
}

/// Behind the array whose bracket stands at `pos`.
pub open spec fn array_end(s: Seq<u8>, pos: int) -> Result<int, Seq<char>>
    decreases s.len() - pos, 0int,
{
    proof {
        lemma_ws_end(s, pos + 1);
    }
    let q = ws_end(s, pos + 1);
    if !(0 <= pos < s.len()) {
        Err("invalid JSON value"@)
    } else if byte_is(s, q, ']') {
        Ok(q + 1)
    } else {
        items_end(s, q)
    }
}

/// Behind the items at `pos` and the bracket that ends them.
pub open spec fn items_end(s: Seq<u8>, pos: int) -> Result<int, Seq<char>>
    decreases s.len() - pos, 2int,
{
    match value_end(s, pos) {
        Err(m) => Err(m),
        Ok(v) => if !(pos < v <= s.len()) {
            Err("invalid JSON value"@)
        } else {
            proof {
                lemma_ws_end(s, v);
            }
            let e = ws_end(s, v);
            if byte_is(s, e, ']') {
                Ok(e + 1)
            } else if byte_is(s, e, ',') {
                items_end(s, e + 1)
            } else {
                Err("expected comma or closing bracket"@)
            }
        },
    }
}

pub proof fn lemma_ws_end(s: Seq<u8>, pos: int)
    ensures
        pos <= ws_end(s, pos),
        pos <= s.len() ==> ws_end(s, pos) <= s.len(),
        0 <= pos && ws_end(s, pos) < s.len() ==> !is_ws(s[ws_end(s, pos)]),
    decreases s.len() - pos,
{
    if 0 <= pos < s.len() && is_ws(s[pos]) {
        lemma_ws_end(s, pos + 1);
    }
}

pub proof fn lemma_digits_end(s: Seq<u8>, pos: int)
    ensures
        pos <= digits_end(s, pos),
        pos <= s.len() ==> digits_end(s, pos) <= s.len(),
    decreases s.len() - pos,
{
    if digit_at(s, pos) {
        lemma_digits_end(s, pos + 1);
    }
}

pub proof fn lemma_hex_end(s: Seq<u8>, pos: int, n: nat)
    ensures
        hex_end(s, pos, n) matches Ok(q) ==> q == pos + n && (n > 0 ==> q <= s.len()),
    decreases n,
{
    if n > 0 && 0 <= pos < s.len() && is_hex_byte(s[pos]) {
        lemma_hex_end(s, pos + 1, (n - 1) as nat);
    }
}

pub proof fn lemma_string_end(s: Seq<u8>, pos: int)
    ensures
        string_end(s, pos) matches Ok(q) ==> pos < q <= s.len(),
    decreases s.len() - pos,
{
    if 0 <= pos < s.len() {
        if s[pos] == '"' as u8 {
        } else if s[pos] == '\\' as u8 {
            if pos + 1 < s.len() {
                if is_short_escape(s[pos + 1]) {
                    lemma_string_end(s, pos + 2);
                } else if s[pos + 1] == 'u' as u8 {
                    lemma_hex_end(s, pos + 2, 4);
                    match hex_end(s, pos + 2, 4) {
                        Ok(q) => lemma_string_end(s, q),
                        Err(_) => {},
                    }
                }
            }
        } else {
            lemma_string_end(s, pos + 1);
        }
    }
}

pub proof fn lemma_number_end(s: Seq<u8>, pos: int)
    requires
        digit_at(s, pos) || byte_is(s, pos, '-'),
    ensures
        pos < number_end(s, pos) <= s.len(),
{
    let a = if byte_is(s, pos, '-') {
        pos + 1
    } else {
        pos
    };
    lemma_digits_end(s, a);
    let b = if byte_is(s, a, '0') {
        a + 1
    } else {
        digits_end(s, a)
    };
    if a == pos && !byte_is(s, a, '0') {
        lemma_digits_end(s, a + 1);
    }
    lemma_digits_end(s, b + 1);
    let c = if byte_is(s, b, '.') {
        digits_end(s, b + 1)
    } else {
        b
    };
    lemma_digits_end(s, c + 1);
    lemma_digits_end(s, c + 2);
}

// ---------------------------------------------------------------------------
// Scanning
// ---------------------------------------------------------------------------

/// The outcome of a scan by its view.
pub open spec fn scan_view(r: Result<usize, &'static str>) -> Result<int, Seq<char>> {
    match r {
        Ok(p) => Ok(p as int),
        Err(m) => Err(m@),
    }
}

/// A scan that goes forward and stays within the input.
pub open spec fn advances(r: Result<usize, &'static str>, s: Seq<u8>, pos: int) -> bool {
    r matches Ok(p) ==> pos < p <= s.len()
}

pub fn ascii_ws(b: u8) -> (r: bool)
    ensures
        r == is_ws(b),
{
    b == 9 || b == 10 || b == 12 || b == 13 || b == 32
}

/// Whether the byte at `pos` is `b`.
pub fn peek_is(s: &[u8], pos: usize, b: char) -> (r: bool)
    requires
        b as u32 <= 127,
    ensures
        r == byte_is(s@, pos as int, b),
        r ==> pos < s@.len() <= usize::MAX,
{
    pos < s.len() && s[pos] == b as u8
}

/// Skips white space.
pub fn skip_ws(s: &[u8], pos: usize) -> (p: usize)
    requires
        pos <= s@.len(),
    ensures
        p == ws_end(s@, pos as int),
        pos <= p <= s@.len() <= usize::MAX,
{
    let mut p: usize = pos;
    while p < s.len() && ascii_ws(s[p])
        invariant
            pos <= p <= s@.len(),
            ws_end(s@, p as int) == ws_end(s@, pos as int),
        decreases s@.len() - p,
    {
        p += 1;
    }
    p
}

fn skip_digits(s: &[u8], pos: usize) -> (p: usize)
    requires
        pos <= s@.len(),
    ensures
        p == digits_end(s@, pos as int),
        pos <= p <= s@.len(),
{
    let mut p: usize = pos;
    while p < s.len() && 48 <= s[p] && s[p] <= 57
        invariant
            pos <= p <= s@.len(),
            digits_end(s@, p as int) == digits_end(s@, pos as int),
        decreases s@.len() - p,
    {
        p += 1;
    }
    p
}

/// Scans a number.
pub fn parse_number(s: &[u8], pos: usize) -> (p: usize)
    requires
        pos <= s@.len(),
    ensures
        p == number_end(s@, pos as int),
        pos <= p <= s@.len(),
{
    let mut p: usize = pos;
    if peek_is(s, p, '-') {
        p += 1;
    }
    if peek_is(s, p, '0') {
        p += 1;
    } else {
        p = skip_digits(s, p);
    }
    if peek_is(s, p, '.') {
        p = skip_digits(s, p + 1);
    }
    if peek_is(s, p, 'e') || peek_is(s, p, 'E') {
        p += 1;
        if peek_is(s, p, '+') || peek_is(s, p, '-') {
            p += 1;
        }
        p = skip_digits(s, p);
    }
    p
}

fn parse_hex4(s: &[u8], pos: usize) -> (r: Result<usize, &'static str>)
    requires
        pos <= s@.len(),
    ensures
        scan_view(r) == hex_end(s@, pos as int, 4),
        r matches Ok(p) ==> p == pos + 4 && p <= s@.len(),
{
    let mut p: usize = pos;
    let mut n: usize = 4;
    while n > 0
        invariant
            n <= 4,
            p == pos + (4 - n),
            p <= s@.len(),
            hex_end(s@, p as int, n as nat) == hex_end(s@, pos as int, 4),
        decreases n,
    {
        if p >= s.len() {
            return Err("truncated unicode escape");
        }
        let b = s[p];
        if !(48 <= b && b <= 57 || 97 <= b && b <= 102 || 65 <= b && b <= 70) {
            return Err("invalid unicode escape");
        }
        p += 1;
        n -= 1;
    }
    Ok(p)
}

/// Scans a string whose contents begin at `pos`.
pub fn parse_string(s: &[u8], pos: usize) -> (r: Result<usize, &'static str>)
    requires
        pos <= s@.len(),
    ensures
        scan_view(r) == string_end(s@, pos as int),
        advances(r, s@, pos as int),
{
    let mut p: usize = pos;
    while p < s.len()
        invariant
            pos <= p <= s@.len(),
            string_end(s@, p as int) == string_end(s@, pos as int),
        decreases s@.len() - p,
    {
        let b = s[p];
        if b == '"' as u8 {
            return Ok(p + 1);
        }
        if b == '\\' as u8 {
            if p + 1 >= s.len() {
                return Err("truncated escape");
            }
            let e = s[p + 1];
            if e == '"' as u8 || e == '\\' as u8 || e == '/' as u8 || e == 'b' as u8 || e
                == 'f' as u8 || e == 'n' as u8 || e == 'r' as u8 || e == 't' as u8 {
                p += 2;
            } else if e == 'u' as u8 {
                match parse_hex4(s, p + 2) {
                    Ok(q) => {
                        p = q;
                    },
                    Err(m) => return Err(m),
                }
            } else {
                return Err("invalid escape");
            }
        } else if b < 0x20 {
            return Err("control char in string");
        } else {
            p += 1;
        }
    }
    Err("unterminated string")
}

/// Scans a literal.
pub fn expect_literal(s: &[u8], pos: usize, lit: &str) -> (r: Result<usize, &'static str>)
    requires
        pos <= s@.len(),
    ensures
        scan_view(r) == literal_end(s@, pos as int, lit.spec_bytes()),
        r matches Ok(p) ==> p == pos + lit.spec_bytes().len() && p <= s@.len(),
{
    let l = lit.as_bytes();
    let n: usize = s.len();
    if n - pos < l.len() {
        return Err("invalid literal");
    }
    let mut i: usize = 0;
    while i < l.len()
        invariant
            i <= l@.len(),
            l@ == lit.spec_bytes(),
            pos + l@.len() <= s@.len(),
            n == s@.len(),
            forall|j: int| 0 <= j < i ==> s@[pos + j] == l@[j],
        decreases l@.len() - i,
    {
        if s[pos + i] != l[i] {
            assert(s@.subrange(pos as int, pos + l@.len())[i as int] != l@[i as int]);
            return Err("invalid literal");
        }
        i += 1;
    }
    assert(s@.subrange(pos as int, pos + l@.len()) =~= l@);
    Ok(pos + l.len())
}

/// Scans a value.
pub fn parse_value(s: &[u8], pos: usize) -> (r: Result<usize, &'static str>)
    requires
        pos <= s@.len(),
    ensures
        scan_view(r) == value_end(s@, pos as int),
        advances(r, s@, pos as int),
    decreases s@.len() - pos, 1int,
{
    let p: usize = skip_ws(s, pos);
    if p >= s.len() {
        return Err("invalid JSON value");
    }
    let b = s[p];
    if b == '{' as u8 {
        parse_object(s, p)
    } else if b == '[' as u8 {
        parse_array(s, p)
    } else if b == '"' as u8 {
        parse_string(s, p + 1)
    } else if b == 't' as u8 {
        proof {
            lemma_literals();
        }
        expect_literal(s, p, "true")
    } else if b == 'f' as u8 {
        proof {
            lemma_literals();
        }
        expect_literal(s, p, "false")
    } else if b == 'n' as u8 {
        proof {
            lemma_literals();
        }
        expect_literal(s, p, "null")
    } else if 48 <= b && b <= 57 || b == '-' as u8 {
        proof {
            lemma_number_end(s@, p as int);
        }
        Ok(parse_number(s, p))
    } else {
        Err("invalid JSON value")
    }
}

/// The bytes of the three literals.
pub proof fn lemma_literals()
    ensures
        "true".spec_bytes() == seq![116u8, 114u8, 117u8, 101u8],
        "false".spec_bytes() == seq![102u8, 97u8, 108u8, 115u8, 101u8],
        "null".spec_bytes() == seq![110u8, 117u8, 108u8, 108u8],
{
    reveal_strlit("true");
    reveal_strlit("false");
    reveal_strlit("null");
    is_ascii_spec_bytes("true");
    is_ascii_spec_bytes("false");
    is_ascii_spec_bytes("null");
    assert("true".spec_bytes() =~= seq![116u8, 114u8, 117u8, 101u8]);
    assert("false".spec_bytes() =~= seq![102u8, 97u8, 108u8, 115u8, 101u8]);
    assert("null".spec_bytes() =~= seq![110u8, 117u8, 108u8, 108u8]);
}

/// Scans an object whose brace stands at `pos`.
pub fn parse_object(s: &[u8], pos: usize) -> (r: Result<usize, &'static str>)
    requires
        pos < s@.len(),
    ensures
        scan_view(r) == object_end(s@, pos as int),
        advances(r, s@, pos as int),
    decreases s@.len() - pos, 0int,
{
    assert(s.len() <= usize::MAX);
    let mut at: usize = skip_ws(s, pos + 1);
    if peek_is(s, at, '}') {
        return Ok(at + 1);
    }
    loop
        invariant
            pos < at <= s@.len(),
            members_end(s@, at as int) == object_end(s@, pos as int),
        decreases s@.len() - at,
    {
        let q: usize = skip_ws(s, at);
        if !peek_is(s, q, '"') {
            return Err("expected object key");
        }
        let k: usize = match parse_string(s, q + 1) {
            Ok(k) => k,
            Err(m) => return Err(m),
        };
        let c: usize = skip_ws(s, k);
        if !peek_is(s, c, ':') {
            return Err("expected colon");
        }
        let v: usize = match parse_value(s, c + 1) {
            Ok(v) => v,
            Err(m) => return Err(m),
        };
        let e: usize = skip_ws(s, v);
        if peek_is(s, e, '}') {
            return Ok(e + 1);
        }
        if !peek_is(s, e, ',') {
            return Err("expected comma or closing brace");
        }
        at = e + 1;
    }
}

/// Scans an array whose bracket stands at `pos`.
pub fn parse_array(s: &[u8], pos: usize) -> (r: Result<usize, &'static str>)
    requires
        pos < s@.len(),
    ensures
        scan_view(r) == array_end(s@, pos as int),
        advances(r, s@, pos as int),
    decreases s@.len() - pos, 0int,
{
    assert(s.len() <= usize::MAX);
    let mut at: usize = skip_ws(s, pos + 1);
    if peek_is(s, at, ']') {
        return Ok(at + 1);
    }
    loop
        invariant
            pos < at <= s@.len(),
            items_end(s@, at as int) == array_end(s@, pos as int),
        decreases s@.len() - at,
    {
        let v: usize = match parse_value(s, at) {
            Ok(v) => v,
            Err(m) => return Err(m),
        };
        let e: usize = skip_ws(s, v);
        if peek_is(s, e, ']') {
            return Ok(e + 1);
        }
        if !peek_is(s, e, ',') {
            return Err("expected comma or closing bracket");
        }
        at = e + 1;
    }
}

// ---------------------------------------------------------------------------
// Bodies
// ---------------------------------------------------------------------------

/// `s` without white space on either side.
pub open spec fn trimmed(s: Seq<u8>) -> Seq<u8>
    decreases s.len(),
{
    if s.len() > 0 && is_ws(s[0]) {
        trimmed(s.drop_first())
    } else if s.len() > 0 && is_ws(s.last()) {
        trimmed(s.drop_last())
    } else {
        s
    }
}

/// What is wrong with `s` as one JSON value.
pub open spec fn value_fault(s: Seq<u8>) -> Option<Seq<char>> {
    match value_end(s, 0) {
        Err(m) => Some(m),
        Ok(p) => if ws_end(s, p) < s.len() {
            Some("trailing data"@)
        } else {
            None
        },
    }
}

/// What is wrong with a body; white space alone is accepted.
pub open spec fn body_fault(raw: Seq<u8>) -> Option<Seq<char>> {
    let t = trimmed(raw);
    if t.len() == 0 {
        None
    } else {
        match value_fault(t) {
            Some(m) => Some("parse JSON body: "@ + m),
            None => None,
        }
    }
}

/// The slice without white space on either side.
pub fn trim_ascii_whitespace<'a>(s: &'a [u8]) -> (out: &'a [u8])
    ensures
        out@ == trimmed(s@),
{
    let mut a: usize = 0;
    let mut b: usize = s.len();
    assert(s@.subrange(0, s@.len() as int) =~= s@);
    while a < b && ascii_ws(s[a])
        invariant
            a <= b <= s@.len(),
            b == s@.len(),
            trimmed(s@.subrange(a as int, b as int)) == trimmed(s@),
        decreases b - a,
    {
        assert(s@.subrange(a as int, b as int).drop_first() =~= s@.subrange(a + 1, b as int));
        a += 1;
    }
    while a < b && ascii_ws(s[b - 1])
        invariant
            a <= b <= s@.len(),
            a < b ==> !is_ws(s@[a as int]),
            trimmed(s@.subrange(a as int, b as int)) == trimmed(s@),
        decreases b - a,
    {
        assert(s@.subrange(a as int, b as int).drop_last() =~= s@.subrange(a as int, b - 1));
        assert(s@.subrange(a as int, b as int)[0] == s@[a as int]);
        assert(s@.subrange(a as int, b as int).last() == s@[b - 1]);
        b -= 1;
    }
    let out = slice_subrange(s, a, b);
    assert(a < b ==> out@[0] == s@[a as int] && out@.last() == s@[b - 1]);
    out
}

/// Checks that `s` is one JSON value.
pub fn parse_json_value(s: &[u8]) -> (r: Result<(), &'static str>)
    ensures
        match r {
            Ok(_) => value_fault(s@) is None,
            Err(m) => value_fault(s@) == Some(m@),
        },
{
    let p: usize = match parse_value(s, 0) {
        Ok(p) => p,
        Err(m) => return Err(m),
    };
    if skip_ws(s, p) < s.len() {
        return Err("trailing data");
    }
    Ok(())
}

/// Checks a body.
pub fn validate_json_syntax(raw: &[u8]) -> (r: Result<(), String>)
    ensures
        match r {
            Ok(_) => body_fault(raw@) is None,
            Err(m) => body_fault(raw@) == Some(m@),
        },
{
    let t = trim_ascii_whitespace(raw);
    if t.len() == 0 {
        return Ok(());
    }
    match parse_json_value(t) {
        Ok(_) => Ok(()),
        Err(m) => {
            let mut out = "parse JSON body: ".to_owned();
            out.append(m);
            Err(out)
        },
    }
}

} // verus!
