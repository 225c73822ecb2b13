//! Text primitives: searching, splitting, trimming, and reading and writing numbers.
//!
//! The specifications speak of sequences of characters (or of bytes); the executable
//! functions work on slices of them.

use vstd::prelude::*;
use vstd::slice::{slice_subrange, slice_to_vec};
use vstd::string::*;
use vstd::utf8::*;

verus! {

/// `String::push` appends one character.
pub assume_specification[ std::string::String::push ](s: &mut std::string::String, c: char)
    ensures
        final(s)@ == old(s)@.push(c),
;

/// The error of `core::str::from_utf8`; it is only dropped.
#[verifier::external_type_specification]
#[verifier::external_body]
pub struct ExUtf8Error(core::str::Utf8Error);

/// `core::str::from_utf8` accepts exactly the valid UTF-8 byte strings and keeps the bytes.
pub assume_specification[ core::str::from_utf8 ](v: &[u8]) -> (r: Result<
    &str,
    core::str::Utf8Error,
>)
    ensures
        r is Ok <==> valid_utf8(v@),
        r matches Ok(s) ==> s.spec_bytes() == v@,
;

/// What `format!` writes for a string under `{:?}`: the text in double quotes, with escapes
/// for what is not printable.
pub uninterp spec fn debug_text(s: Seq<char>) -> Seq<char>;

/// What `format!` writes for a character under `{:?}`: the character in single quotes, with
/// an escape where it is not printable.
pub uninterp spec fn debug_char_text(c: char) -> Seq<char>;

/// The string that the `Debug` of `str` writes; it depends on the text alone.
#[verifier::external_body]
pub(crate) fn debug_string(s: &str) -> (out: String)
    ensures
        out@ == debug_text(s@),
{
    format!("{:?}", s)
}

/// The string that the `Debug` of `char` writes; it depends on the character alone.
#[verifier::external_body]
pub(crate) fn debug_char_string(c: char) -> (out: String)
    ensures
        out@ == debug_char_text(c),
{
    format!("{:?}", c)
}

/// What the `Display` of the error of `core::str::from_utf8` writes for bytes that are not
/// UTF-8.
pub uninterp spec fn utf8_error_text(bytes: Seq<u8>) -> Seq<char>;

/// The text of the error that `core::str::from_utf8` gives; it depends on the bytes alone.
#[verifier::external_body]
pub(crate) fn utf8_error_string(bytes: &[u8]) -> (out: String)
    requires
        !valid_utf8(bytes@),
    ensures
        out@ == utf8_error_text(bytes@),
{
    match core::str::from_utf8(bytes) {
        Ok(_) => String::new(),
        Err(e) => e.to_string(),
    }
}

// ---------------------------------------------------------------------------
// Searching and splitting
// ---------------------------------------------------------------------------

/// Position of the first occurrence of `x` in `s`.
pub open spec fn find<T>(s: Seq<T>, x: T) -> Option<int>
    decreases s.len(),
{
    if s.len() == 0 {
        None
    } else if s[0] == x {
        Some(0)
    } else {
        match find(s.drop_first(), x) {
            Some(i) => Some(i + 1),
            None => None,
        }
    }
}

/// Position of the last occurrence of `x` in `s`.
pub open spec fn rfind<T>(s: Seq<T>, x: T) -> Option<int>
    decreases s.len(),
{
    if s.len() == 0 {
        None
    } else if s.last() == x {
        Some(s.len() - 1)
    } else {
        rfind(s.drop_last(), x)
    }
}

/// The pieces of `s` between occurrences of `sep`; always at least one piece.
pub open spec fn split<T>(s: Seq<T>, sep: T) -> Seq<Seq<T>>
    decreases s.len(),
{
    match find(s, sep) {
        None => seq![s],
        Some(i) => if 0 <= i < s.len() {
            seq![s.take(i)] + split(s.skip(i + 1), sep)
        } else {
            seq![s]
        },
    }
}

/// Replaces a vector of vectors by the sequence of their contents.
pub open spec fn views<T>(v: Seq<Vec<T>>) -> Seq<Seq<T>> {
    Seq::new(v.len(), |i: int| v[i]@)
}

/// Replaces a vector of strings by the sequence of their contents.
pub open spec fn string_views(v: Seq<String>) -> Seq<Seq<char>> {
    Seq::new(v.len(), |i: int| v[i]@)
}

/// `find` gives the first position that holds `x`, if there is one.
pub proof fn lemma_find<T>(s: Seq<T>, x: T)
    ensures
        match find(s, x) {
            Some(i) => 0 <= i < s.len() && s[i] == x && (forall|j: int| 0 <= j < i ==> s[j] != x),
            None => forall|j: int| 0 <= j < s.len() ==> s[j] != x,
        },
    decreases s.len(),
{
    if s.len() > 0 && s[0] != x {
        let t = s.drop_first();
        lemma_find(t, x);
        assert forall|j: int| 0 < j < s.len() implies s[j] == t[j - 1] by {}
    }
}

/// `rfind` gives the last position that holds `x`, if there is one.
pub proof fn lemma_rfind<T>(s: Seq<T>, x: T)
    ensures
        match rfind(s, x) {
            Some(i) => 0 <= i < s.len() && s[i] == x && (forall|j: int|
                i < j < s.len() ==> s[j] != x),
            None => forall|j: int| 0 <= j < s.len() ==> s[j] != x,
        },
    decreases s.len(),
{
    if s.len() > 0 && s.last() != x {
        let t = s.drop_last();
        lemma_rfind(t, x);
        assert forall|j: int| 0 <= j < s.len() - 1 implies s[j] == t[j] by {}
    }
}

/// The position with `x` at it and none before it is the one that `find` gives.
pub proof fn lemma_find_at<T>(s: Seq<T>, x: T, i: int)
    requires
        0 <= i < s.len(),
        s[i] == x,
        forall|j: int| 0 <= j < i ==> s[j] != x,
    ensures
        find(s, x) == Some(i),
    decreases i,
{
    if i > 0 {
        assert(s[0] != x);
        lemma_find_at(s.drop_first(), x, i - 1);
    }
}

/// Where `x` does not occur, `find` gives nothing.
pub proof fn lemma_find_none<T>(s: Seq<T>, x: T)
    requires
        forall|j: int| 0 <= j < s.len() ==> s[j] != x,
    ensures
        find(s, x) is None,
    decreases s.len(),
{
    if s.len() > 0 {
        lemma_find_none(s.drop_first(), x);
    }
}

/// The position with `x` at it and none after it is the one that `rfind` gives.
pub proof fn lemma_rfind_at<T>(s: Seq<T>, x: T, i: int)
    requires
        0 <= i < s.len(),
        s[i] == x,
        forall|j: int| i < j < s.len() ==> s[j] != x,
    ensures
        rfind(s, x) == Some(i),
    decreases s.len(),
{
    if i < s.len() - 1 {
        lemma_rfind_at(s.drop_last(), x, i);
    }
}

/// Where `x` does not occur, `rfind` gives nothing.
pub proof fn lemma_rfind_none<T>(s: Seq<T>, x: T)
    requires
        forall|j: int| 0 <= j < s.len() ==> s[j] != x,
    ensures
        rfind(s, x) is None,
    decreases s.len(),
{
    if s.len() > 0 {
        lemma_rfind_none(s.drop_last(), x);
    }
}

/// Where the part before a separator holds none, `split` cuts there first.
pub proof fn lemma_split_at<T>(head: Seq<T>, sep: T, tail: Seq<T>)
    requires
        forall|j: int| 0 <= j < head.len() ==> head[j] != sep,
    ensures
        split(head.push(sep) + tail, sep) == seq![head] + split(tail, sep),
{
    let s = head.push(sep) + tail;
    lemma_find_at(s, sep, head.len() as int);
    assert(s.take(head.len() as int) =~= head);
    assert(s.skip(head.len() as int + 1) =~= tail);
}

/// A text cut at one separator is split into the pieces of both parts.
pub proof fn lemma_split_concat<T>(a: Seq<T>, sep: T, b: Seq<T>)
    ensures
        split(a.push(sep) + b, sep) == split(a, sep) + split(b, sep),
    decreases a.len(),
{
    lemma_find(a, sep);
    match find(a, sep) {
        None => {
            lemma_split_at(a, sep, b);
        },
        Some(i) => {
            let head = a.take(i);
            let tail = a.skip(i + 1);
            lemma_split_concat(tail, sep, b);
            lemma_split_at(head, sep, tail.push(sep) + b);
            assert(a.push(sep) + b =~= head.push(sep) + (tail.push(sep) + b));
            assert(split(a, sep) =~= seq![head] + split(tail, sep));
            assert(seq![head] + (split(tail, sep) + split(b, sep)) =~= (seq![head] + split(
                tail,
                sep,
            )) + split(b, sep));
        },
    }
}

/// No piece holds the separator.
pub proof fn lemma_pieces<T>(s: Seq<T>, sep: T)
    ensures
        forall|i: int, j: int|
            0 <= i < split(s, sep).len() && 0 <= j < split(s, sep)[i].len() ==> #[trigger] split(
                s,
                sep,
            )[i][j] != sep,
    decreases s.len(),
{
    lemma_find(s, sep);
    match find(s, sep) {
        None => {},
        Some(i) => {
            let rest = split(s.skip(i + 1), sep);
            lemma_pieces(s.skip(i + 1), sep);
            assert forall|k: int, j: int|
                0 <= k < split(s, sep).len() && 0 <= j < split(s, sep)[k].len() implies
                #[trigger] split(s, sep)[k][j] != sep by {
                if k > 0 {
                    assert(split(s, sep)[k] == rest[k - 1]);
                    assert(rest[k - 1][j] != sep);
                }
            }
        },
    }
}

/// The characters of a string as a vector.
pub fn chars_of(s: &str) -> (out: Vec<char>)
    ensures
        out@ == s@,
{
    let mut out: Vec<char> = Vec::new();
    for c in it: s.chars()
        invariant
            out@ == it.seq().take(it.index()),
            it.seq() == s@,
    {
        out.push(c);
    }
    out
}

/// A string made of the given characters.
pub fn string_of(cs: &[char]) -> (out: String)
    ensures
        out@ == cs@,
{
    let mut out = String::new();
    let mut i: usize = 0;
    while i < cs.len()
        invariant
            i <= cs.len(),
            out@ == cs@.take(i as int),
        decreases cs.len() - i,
    {
        out.push(cs[i]);
        i += 1;
        assert(cs@.take(i as int) =~= cs@.take(i - 1).push(cs@[i - 1]));
    }
    assert(cs@.take(i as int) =~= cs@);
    out
}

/// Whether two strings hold the same characters.
pub fn str_eq(a: &str, b: &str) -> (r: bool)
    ensures
        r == (a@ == b@),
{
    chars_eq(chars_of(a).as_slice(), b)
}

/// Whether a character slice holds the characters of `b`.
pub fn chars_eq(a: &[char], b: &str) -> (r: bool)
    ensures
        r == (a@ == b@),
{
    let bs = chars_of(b);
    if a.len() != bs.len() {
        return false;
    }
    let mut i: usize = 0;
    while i < a.len()
        invariant
            i <= a.len(),
            a.len() == bs.len(),
            bs@ == b@,
            forall|j: int| 0 <= j < i ==> a@[j] == bs@[j],
        decreases a.len() - i,
    {
        if a[i] != bs[i] {
            assert(a@[i as int] != b@[i as int]);
            return false;
        }
        i += 1;
    }
    assert(a@ =~= b@);
    true
}

/// First position of `c`.
pub fn find_char(cs: &[char], c: char) -> (r: Option<usize>)
    ensures
        match r {
            Some(i) => find(cs@, c) == Some(i as int) && i < cs.len() && cs@[i as int] == c,
            None => find(cs@, c) is None,
        },
{
    let mut i: usize = 0;
    while i < cs.len()
        invariant
            i <= cs.len(),
            forall|j: int| 0 <= j < i ==> cs@[j] != c,
        decreases cs.len() - i,
    {
        if cs[i] == c {
            proof {
                lemma_find_at(cs@, c, i as int);
            }
            return Some(i);
        }
        i += 1;
    }
    proof {
        lemma_find_none(cs@, c);
    }
    None
}

/// First position of the byte `c`.
pub fn find_byte(cs: &[u8], c: u8) -> (r: Option<usize>)
    ensures
        match r {
            Some(i) => find(cs@, c) == Some(i as int) && i < cs.len() && cs@[i as int] == c,
            None => find(cs@, c) is None,
        },
{
    let mut i: usize = 0;
    while i < cs.len()
        invariant
            i <= cs.len(),
            forall|j: int| 0 <= j < i ==> cs@[j] != c,
        decreases cs.len() - i,
    {
        if cs[i] == c {
            proof {
                lemma_find_at(cs@, c, i as int);
            }
            return Some(i);
        }
        i += 1;
    }
    proof {
        lemma_find_none(cs@, c);
    }
    None
}

/// Last position of `c`.
pub fn rfind_char(cs: &[char], c: char) -> (r: Option<usize>)
    ensures
        match r {
            Some(i) => rfind(cs@, c) == Some(i as int) && i < cs.len() && cs@[i as int] == c,
            None => rfind(cs@, c) is None,
        },
{
    let mut i: usize = cs.len();
    while i > 0
        invariant
            i <= cs.len(),
            forall|j: int| i <= j < cs.len() ==> cs@[j] != c,
        decreases i,
    {
        i -= 1;
        if cs[i] == c {
            proof {
                lemma_rfind_at(cs@, c, i as int);
            }
            return Some(i);
        }
    }
    proof {
        lemma_rfind_none(cs@, c);
    }
    None
}

/// The pieces of `cs` between occurrences of `sep`.
pub fn split_chars(cs: &[char], sep: char) -> (out: Vec<Vec<char>>)
    ensures
        views(out@) == split(cs@, sep),
{
    let mut out: Vec<Vec<char>> = Vec::new();
    let mut pos: usize = 0;
    assert(cs@.skip(0) =~= cs@);
    assert(views(out@) + split(cs@, sep) =~= split(cs@, sep));
    loop
        invariant
            pos <= cs.len(),
            views(out@) + split(cs@.skip(pos as int), sep) == split(cs@, sep),
        decreases cs.len() - pos,
    {
        let rest = slice_subrange(cs, pos, cs.len());
        assert(rest@ == cs@.skip(pos as int));
        let ghost before = views(out@);
        match find_char(rest, sep) {
            None => {
                out.push(slice_to_vec(rest));
                assert(views(out@) =~= before + seq![rest@]);
                return out;
            },
            Some(i) => {
                out.push(slice_to_vec(slice_subrange(rest, 0, i)));
                assert(views(out@) =~= before + seq![rest@.take(i as int)]);
                assert(rest@.skip(i + 1) =~= cs@.skip(pos + i + 1));
                assert(split(rest@, sep) == seq![rest@.take(i as int)] + split(
                    rest@.skip(i + 1),
                    sep,
                ));
                assert(before + (seq![rest@.take(i as int)] + split(cs@.skip(pos + i + 1), sep))
                    =~= views(out@) + split(cs@.skip(pos + i + 1), sep));
                pos = pos + i + 1;
            },
        }
    }
}

// ---------------------------------------------------------------------------
// Trimming and letter case
// ---------------------------------------------------------------------------

/// Characters with the Unicode property `White_Space`.
pub open spec fn is_space(c: char) -> bool {
    let u = c as u32;
    9 <= u <= 13 || u == 0x20 || u == 0x85 || u == 0xa0 || u == 0x1680 || 0x2000 <= u <= 0x200a
        || u == 0x2028 || u == 0x2029 || u == 0x202f || u == 0x205f || u == 0x3000
}

/// A space or a tab.
pub open spec fn is_blank(c: char) -> bool {
    c == ' ' || c == '\t'
}

/// `s` without its leading white space.
pub open spec fn trim_start(s: Seq<char>) -> Seq<char>
    decreases s.len(),
{
    if s.len() > 0 && is_space(s[0]) {
        trim_start(s.drop_first())
    } else {
        s
    }
}

/// `s` without its trailing white space.
pub open spec fn trim_end(s: Seq<char>) -> Seq<char>
    decreases s.len(),
{
    if s.len() > 0 && is_space(s.last()) {
        trim_end(s.drop_last())
    } else {
        s
    }
}

/// `s` without white space on either side.
pub open spec fn trim(s: Seq<char>) -> Seq<char> {
    trim_end(trim_start(s))
}

/// `s` without its trailing spaces and tabs.
pub open spec fn trim_end_blank(s: Seq<char>) -> Seq<char>
    decreases s.len(),
{
    if s.len() > 0 && is_blank(s.last()) {
        trim_end_blank(s.drop_last())
    } else {
        s
    }
}

/// Lower case for `A` to `Z`, any other character unchanged.
pub open spec fn lower(c: char) -> char {
    if 'A' <= c && c <= 'Z' {
        ((c as u8) + 32) as char
    } else {
        c
    }
}

/// `lower` on each character.
pub open spec fn lower_all(s: Seq<char>) -> Seq<char> {
    s.map_values(|c: char| lower(c))
}

/// Equality of two texts that looks past the case of ASCII letters.
pub open spec fn eq_no_case(a: Seq<char>, b: Seq<char>) -> bool {
    lower_all(a) == lower_all(b)
}

/// Text that neither begins nor ends with white space is its own trimmed form.
pub proof fn lemma_trim_tight(s: Seq<char>)
    requires
        s.len() > 0 ==> !is_space(s[0]) && !is_space(s.last()),
    ensures
        trim(s) == s,
{
}

/// Trimmed text neither begins nor ends with white space, and holds no character that the text
/// does not hold.
pub proof fn lemma_trimmed(s: Seq<char>, x: char)
    ensures
        trim(s).len() > 0 ==> !is_space(trim(s)[0]) && !is_space(trim(s).last()),
        (forall|j: int| 0 <= j < s.len() ==> s[j] != x) ==> forall|j: int|
            0 <= j < trim(s).len() ==> trim(s)[j] != x,
{
    lemma_trim_start(s, x);
    lemma_trim_end(trim_start(s), x);
}

proof fn lemma_trim_start(s: Seq<char>, x: char)
    ensures
        trim_start(s).len() > 0 ==> !is_space(trim_start(s)[0]),
        (forall|j: int| 0 <= j < s.len() ==> s[j] != x) ==> forall|j: int|
            0 <= j < trim_start(s).len() ==> trim_start(s)[j] != x,
    decreases s.len(),
{
    if s.len() > 0 && is_space(s[0]) {
        lemma_trim_start(s.drop_first(), x);
    }
}

proof fn lemma_trim_end(s: Seq<char>, x: char)
    ensures
        trim_end(s).len() > 0 ==> !is_space(trim_end(s).last()) && trim_end(s)[0] == s[0],
        (forall|j: int| 0 <= j < s.len() ==> s[j] != x) ==> forall|j: int|
            0 <= j < trim_end(s).len() ==> trim_end(s)[j] != x,
    decreases s.len(),
{
    if s.len() > 0 && is_space(s.last()) {
        lemma_trim_end(s.drop_last(), x);
    }
}

pub fn space(c: char) -> (r: bool)
    ensures
        r == is_space(c),
{
    let u: u32 = c as u32;
    9 <= u && u <= 13 || u == 0x20 || u == 0x85 || u == 0xa0 || u == 0x1680 || 0x2000 <= u && u
        <= 0x200a || u == 0x2028 || u == 0x2029 || u == 0x202f || u == 0x205f || u == 0x3000
}

/// The slice without white space on either side.
pub fn trim_chars<'a>(cs: &'a [char]) -> (out: &'a [char])
    ensures
        out@ == trim(cs@),
        out@.len() <= cs@.len(),
{
    let mut a: usize = 0;
    assert(cs@.skip(0) =~= cs@);
    while a < cs.len() && space(cs[a])
        invariant
            a <= cs.len(),
            trim_start(cs@.skip(a as int)) == trim_start(cs@),
        decreases cs.len() - a,
    {
        assert(cs@.skip(a as int).drop_first() =~= cs@.skip(a + 1));
        a += 1;
    }
    let ghost head = cs@.skip(a as int);
    assert(trim_start(cs@) == head) by {
        assert(a < cs.len() ==> head[0] == cs@[a as int]);
    }
    let mut b: usize = cs.len();
    assert(cs@.subrange(a as int, b as int) =~= head);
    while b > a && space(cs[b - 1])
        invariant
            a <= b <= cs.len(),
            trim_end(cs@.subrange(a as int, b as int)) == trim_end(head),
        decreases b,
    {
        assert(cs@.subrange(a as int, b as int).drop_last() =~= cs@.subrange(a as int, b - 1));
        b -= 1;
    }
    let out = slice_subrange(cs, a, b);
    assert(b > a ==> out@.last() == cs@[b - 1]);
    out
}

/// The slice without its trailing spaces and tabs.
pub fn trim_end_blank_chars<'a>(cs: &'a [char]) -> (out: &'a [char])
    ensures
        out@ == trim_end_blank(cs@),
        out@.len() <= cs@.len(),
{
    let mut b: usize = cs.len();
    assert(cs@.take(b as int) =~= cs@);
    while b > 0 && (cs[b - 1] == ' ' || cs[b - 1] == '\t')
        invariant
            b <= cs.len(),
            trim_end_blank(cs@.take(b as int)) == trim_end_blank(cs@),
        decreases b,
    {
        assert(cs@.take(b as int).drop_last() =~= cs@.take(b - 1));
        b -= 1;
    }
    let out = slice_subrange(cs, 0, b);
    assert(out@ =~= cs@.take(b as int));
    assert(b > 0 ==> out@.last() == cs@[b - 1]);
    out
}

pub fn lower_char(c: char) -> (r: char)
    ensures
        r == lower(c),
{
    if 'A' <= c && c <= 'Z' {
        ((c as u8) + 32) as char
    } else {
        c
    }
}

/// A copy with the ASCII letters in lower case.
pub fn lower_chars(cs: &[char]) -> (out: Vec<char>)
    ensures
        out@ == lower_all(cs@),
{
    let mut out: Vec<char> = Vec::new();
    let mut i: usize = 0;
    while i < cs.len()
        invariant
            i <= cs.len(),
            out@.len() == i,
            forall|j: int| 0 <= j < i ==> out@[j] == lower(cs@[j]),
        decreases cs.len() - i,
    {
        out.push(lower_char(cs[i]));
        i += 1;
    }
    assert(out@ =~= lower_all(cs@));
    out
}

/// Whether two texts are equal but for the case of ASCII letters.
pub fn chars_eq_no_case(a: &[char], b: &str) -> (r: bool)
    ensures
        r == eq_no_case(a@, b@),
{
    let x = lower_chars(a);
    let y = string_of(lower_chars(chars_of(b).as_slice()).as_slice());
    chars_eq(x.as_slice(), y.as_str())
}

/// Whether `cs` begins with the characters of `prefix`.
pub open spec fn has_prefix<T>(s: Seq<T>, prefix: Seq<T>) -> bool {
    prefix.len() <= s.len() && s.take(prefix.len() as int) == prefix
}

pub fn chars_start_with(cs: &[char], prefix: &str) -> (r: bool)
    ensures
        r == has_prefix(cs@, prefix@),
{
    let p = chars_of(prefix);
    if p.len() > cs.len() {
        return false;
    }
    let head = slice_subrange(cs, 0, p.len());
    assert(head@ =~= cs@.take(prefix@.len() as int));
    chars_eq(head, prefix)
}

// ---------------------------------------------------------------------------
// Order
// ---------------------------------------------------------------------------

/// `a` sorts before `b`: at the first difference `a` has the smaller code point or has ended.
pub open spec fn text_before(a: Seq<char>, b: Seq<char>) -> bool
    decreases a.len(),
{
    if b.len() == 0 {
        false
    } else if a.len() == 0 {
        true
    } else if a[0] == b[0] {
        text_before(a.drop_first(), b.drop_first())
    } else {
        a[0] < b[0]
    }
}

/// Of two different texts exactly one sorts before the other.
pub proof fn lemma_before_total(a: Seq<char>, b: Seq<char>)
    ensures
        text_before(a, b) ==> a != b && !text_before(b, a),
        !text_before(a, b) ==> a == b || text_before(b, a),
    decreases a.len(),
{
    if a.len() == 0 || b.len() == 0 {
        if a.len() == 0 && b.len() == 0 {
            assert(a =~= b);
        }
    } else if a[0] == b[0] {
        lemma_before_total(a.drop_first(), b.drop_first());
        assert(a =~= seq![a[0]] + a.drop_first());
        assert(b =~= seq![b[0]] + b.drop_first());
    }
}

/// Sorting before is transitive.
pub proof fn lemma_before_transitive(a: Seq<char>, b: Seq<char>, c: Seq<char>)
    requires
        text_before(a, b),
        text_before(b, c),
    ensures
        text_before(a, c),
    decreases a.len(),
{
    if a.len() > 0 && a[0] == b[0] && b[0] == c[0] {
        lemma_before_transitive(a.drop_first(), b.drop_first(), c.drop_first());
    }
}

/// Whether `a` sorts before `b`.
pub fn sorts_before(a: &str, b: &str) -> (r: bool)
    ensures
        r == text_before(a@, b@),
{
    let x = chars_of(a);
    let y = chars_of(b);
    let mut i: usize = 0;
    assert(x@.skip(0) =~= a@);
    assert(y@.skip(0) =~= b@);
    while i < x.len() && i < y.len() && x[i] == y[i]
        invariant
            i <= x.len(),
            i <= y.len(),
            text_before(x@.skip(i as int), y@.skip(i as int)) == text_before(a@, b@),
        decreases x.len() - i,
    {
        assert(x@.skip(i as int).drop_first() =~= x@.skip(i + 1));
        assert(y@.skip(i as int).drop_first() =~= y@.skip(i + 1));
        i += 1;
    }
    assert(i < x.len() ==> x@.skip(i as int)[0] == x@[i as int]);
    assert(i < y.len() ==> y@.skip(i as int)[0] == y@[i as int]);
    if i >= y.len() {
        false
    } else if i >= x.len() {
        true
    } else {
        x[i] < y[i]
    }
}

// ---------------------------------------------------------------------------
// Numbers
// ---------------------------------------------------------------------------

/// The decimal digit for `d`.
pub open spec fn digit_char(d: int) -> char {
    (48 + d) as char
}

/// `n` in decimal.
pub open spec fn dec(n: nat) -> Seq<char>
    decreases n,
{
    if n < 10 {
        seq![digit_char(n as int)]
    } else {
        dec(n / 10).push(digit_char((n % 10) as int))
    }
}

/// `i` in decimal, with a minus sign where it is negative.
pub open spec fn dec_int(i: int) -> Seq<char> {
    if i < 0 {
        seq!['-'] + dec((-i) as nat)
    } else {
        dec(i as nat)
    }
}

/// `s` filled up with leading zeros to `width` characters.
pub open spec fn zero_fill(s: Seq<char>, width: nat) -> Seq<char> {
    if s.len() >= width {
        s
    } else {
        Seq::new((width - s.len()) as nat, |i: int| '0') + s
    }
}

/// `i` in decimal, filled up to `width` characters with zeros between sign and digits.
pub open spec fn dec_padded(i: int, width: nat) -> Seq<char> {
    if i < 0 {
        seq!['-'] + zero_fill(dec((-i) as nat), if width > 0 { (width - 1) as nat } else { 0 })
    } else {
        zero_fill(dec(i as nat), width)
    }
}

/// The lower-case hexadecimal digit for `d`.
pub open spec fn hex_char(d: int) -> char {
    if d < 10 {
        (48 + d) as char
    } else {
        (87 + d) as char
    }
}

/// `n` in lower-case hexadecimal.
pub open spec fn hex(n: nat) -> Seq<char>
    decreases n,
{
    if n < 16 {
        seq![hex_char(n as int)]
    } else {
        hex(n / 16).push(hex_char((n % 16) as int))
    }
}

/// Whether `c` is a decimal digit.
pub open spec fn is_digit(c: char) -> bool {
    '0' <= c && c <= '9'
}

/// The value of a run of decimal digits.
pub open spec fn digits_value(s: Seq<char>) -> int
    decreases s.len(),
{
    if s.len() == 0 {
        0
    } else {
        digits_value(s.drop_last()) * 10 + (s.last() as int - 48)
    }
}

/// Whether `s` is a non-empty run of decimal digits.
pub open spec fn all_digits(s: Seq<char>) -> bool {
    s.len() > 0 && forall|i: int| 0 <= i < s.len() ==> is_digit(#[trigger] s[i])
}

/// The integer that `s` writes: an optional sign and at least one digit.
pub open spec fn int_value(s: Seq<char>) -> Option<int> {
    let signed = s.len() > 0 && (s[0] == '+' || s[0] == '-');
    let digits = if signed {
        s.drop_first()
    } else {
        s
    };
    if !all_digits(digits) {
        None
    } else if signed && s[0] == '-' {
        Some(-digits_value(digits))
    } else {
        Some(digits_value(digits))
    }
}

/// Appends `n` in decimal.
pub fn push_dec(out: &mut String, n: u64)
    ensures
        final(out)@ == old(out)@ + dec(n as nat),
    decreases n,
{
    if n >= 10 {
        push_dec(out, n / 10);
    }
    out.push((48u8 + (n % 10) as u8) as char);
}

/// Appends `i` in decimal.
pub fn push_dec_int(out: &mut String, i: i64)
    ensures
        final(out)@ == old(out)@ + dec_int(i as int),
{
    if i < 0 {
        out.push('-');
        let m: u64 = (-(i as i128)) as u64;
        push_dec(out, m);
    } else {
        push_dec(out, i as u64);
    }
}

/// `i` in decimal.
pub fn dec_string(i: i64) -> (out: String)
    ensures
        out@ == dec_int(i as int),
{
    let mut out = String::new();
    push_dec_int(&mut out, i);
    out
}

/// Appends `s` filled up with leading zeros to `width` characters.
pub fn push_zero_filled(out: &mut String, s: &str, width: usize)
    ensures
        final(out)@ == old(out)@ + zero_fill(s@, width as nat),
{
    let n: usize = s.unicode_len();
    let mut i: usize = n;
    while i < width
        invariant
            n <= i,
            n == s@.len(),
            i <= width || i == n,
            out@ == old(out)@ + Seq::new((i - n) as nat, |j: int| '0'),
        decreases width - i,
    {
        out.push('0');
        i += 1;
    }
    out.append(s);
}

/// Appends `i` in decimal, filled up to `width` characters.
pub fn push_dec_padded(out: &mut String, i: i64, width: usize)
    ensures
        final(out)@ == old(out)@ + dec_padded(i as int, width as nat),
{
    let mut digits = String::new();
    if i < 0 {
        out.push('-');
        push_dec(&mut digits, (-(i as i128)) as u64);
        push_zero_filled(out, digits.as_str(), if width > 0 { width - 1 } else { 0 });
    } else {
        push_dec(&mut digits, i as u64);
        push_zero_filled(out, digits.as_str(), width);
    }
}

/// Appends `n` in lower-case hexadecimal.
pub fn push_hex(out: &mut String, n: u64)
    ensures
        final(out)@ == old(out)@ + hex(n as nat),
    decreases n,
{
    if n >= 16 {
        push_hex(out, n / 16);
    }
    let d: u8 = (n % 16) as u8;
    out.push(if d < 10 { (48u8 + d) as char } else { (87u8 + d) as char });
}

/// A byte as two lower-case hexadecimal digits.
pub open spec fn byte_hex(b: u8) -> Seq<char> {
    seq![hex_char(b as int / 16), hex_char(b as int % 16)]
}

/// Appends a byte as two lower-case hexadecimal digits.
pub fn push_byte_hex(out: &mut String, b: u8)
    ensures
        final(out)@ == old(out)@ + byte_hex(b),
{
    let hi: u8 = b / 16;
    let lo: u8 = b % 16;
    out.push(if hi < 10 { (48u8 + hi) as char } else { (87u8 + hi) as char });
    out.push(if lo < 10 { (48u8 + lo) as char } else { (87u8 + lo) as char });
}

/// The integer that `cs` writes, where it fits into an `i64`.
#[verifier::loop_isolation(false)]
pub fn parse_i64(cs: &[char]) -> (r: Option<i64>)
    ensures
        r == match int_value(cs@) {
            Some(v) => if i64::MIN <= v <= i64::MAX {
                Some(v as i64)
            } else {
                None
            },
            None => None,
        },
{
    let signed = cs.len() > 0 && (cs[0] == '+' || cs[0] == '-');
    let digits = if signed {
        slice_subrange(cs, 1, cs.len())
    } else {
        cs
    };
    assert(digits@ == if signed {
        cs@.drop_first()
    } else {
        cs@
    });
    let negative = signed && cs[0] == '-';
    if digits.len() == 0 {
        return None;
    }
    // Saturates one past the range, so that a longer run of digits cannot overflow.
    let limit: i128 = 0x8000_0000_0000_0001;
    let mut v: i128 = 0;
    let mut i: usize = 0;
    assert(digits@.take(0) =~= Seq::<char>::empty());
    while i < digits.len()
        invariant
            i <= digits.len(),
            limit == 0x8000_0000_0000_0001,
            0 <= v <= limit,
            v < limit ==> v == digits_value(digits@.take(i as int)),
            v == limit ==> digits_value(digits@.take(i as int)) >= limit,
            forall|j: int| 0 <= j < i ==> is_digit(#[trigger] digits@[j]),
        decreases digits.len() - i,
    {
        let c = digits[i];
        if c < '0' || c > '9' {
            assert(!is_digit(digits@[i as int]));
            return None;
        }
        let d: i128 = (c as u32 - 48) as i128;
        assert(digits@.take(i + 1).drop_last() =~= digits@.take(i as int));
        assert(digits@.take(i + 1).last() == c);
        v = v * 10 + d;
        if v > limit {
            v = limit;
        }
        i += 1;
    }
    assert(digits@.take(i as int) =~= digits@);
    let w: i128 = if negative {
        -v
    } else {
        v
    };
    if w < -0x8000_0000_0000_0000 || w > 0x7fff_ffff_ffff_ffff {
        None
    } else {
        Some(w as i64)
    }
}

/// The value of a hex digit of either case.
pub open spec fn hex_digit_value(c: char) -> Option<int> {
    if '0' <= c && c <= '9' {
        Some(c as int - 48)
    } else if 'a' <= c && c <= 'f' {
        Some(c as int - 87)
    } else if 'A' <= c && c <= 'F' {
        Some(c as int - 55)
    } else {
        None
    }
}

/// Whether `s` is a non-empty run of hex digits.
pub open spec fn all_hex(s: Seq<char>) -> bool {
    s.len() > 0 && forall|i: int| 0 <= i < s.len() ==> hex_digit_value(#[trigger] s[i]) is Some
}

/// The value of a run of hex digits.
pub open spec fn hex_value(s: Seq<char>) -> int
    decreases s.len(),
{
    if s.len() == 0 {
        0
    } else {
        hex_value(s.drop_last()) * 16 + hex_digit_value(s.last())->0
    }
}

/// The integer that `s` writes in hex: an optional sign and at least one digit.
pub open spec fn hex_int_value(s: Seq<char>) -> Option<int> {
    let signed = s.len() > 0 && (s[0] == '+' || s[0] == '-');
    let digits = if signed {
        s.drop_first()
    } else {
        s
    };
    if !all_hex(digits) {
        None
    } else if signed && s[0] == '-' {
        Some(-hex_value(digits))
    } else {
        Some(hex_value(digits))
    }
}

/// The integer that `cs` writes in hex, where it fits into an `i64`.
#[verifier::loop_isolation(false)]
pub fn parse_hex_i64(cs: &[char]) -> (r: Option<i64>)
    ensures
        r == match hex_int_value(cs@) {
            Some(v) => if i64::MIN <= v <= i64::MAX {
                Some(v as i64)
            } else {
                None
            },
            None => None,
        },
{
    let signed = cs.len() > 0 && (cs[0] == '+' || cs[0] == '-');
    let digits = if signed {
        slice_subrange(cs, 1, cs.len())
    } else {
        cs
    };
    assert(digits@ == if signed {
        cs@.drop_first()
    } else {
        cs@
    });
    let negative = signed && cs[0] == '-';
    if digits.len() == 0 {
        return None;
    }
    // Saturates one past the range, so that a longer run of digits cannot overflow.
    let limit: i128 = 0x8000_0000_0000_0001;
    let mut v: i128 = 0;
    let mut i: usize = 0;
    assert(digits@.take(0) =~= Seq::<char>::empty());
    while i < digits.len()
        invariant
            i <= digits.len(),
            limit == 0x8000_0000_0000_0001,
            0 <= v <= limit,
            v < limit ==> v == hex_value(digits@.take(i as int)),
            v == limit ==> hex_value(digits@.take(i as int)) >= limit,
            forall|j: int| 0 <= j < i ==> hex_digit_value(#[trigger] digits@[j]) is Some,
        decreases digits.len() - i,
    {
        let c = digits[i];
        let d: i128 = if '0' <= c && c <= '9' {
            (c as u32 - 48) as i128
        } else if 'a' <= c && c <= 'f' {
            (c as u32 - 87) as i128
        } else if 'A' <= c && c <= 'F' {
            (c as u32 - 55) as i128
        } else {
            assert(hex_digit_value(digits@[i as int]) is None);
            return None;
        };
        assert(digits@.take(i + 1).drop_last() =~= digits@.take(i as int));
        assert(digits@.take(i + 1).last() == c);
        v = v * 16 + d;
        if v > limit {
            v = limit;
        }
        i += 1;
    }
    assert(digits@.take(i as int) =~= digits@);
    let w: i128 = if negative {
        -v
    } else {
        v
    };
    if w < -0x8000_0000_0000_0000 || w > 0x7fff_ffff_ffff_ffff {
        None
    } else {
        Some(w as i64)
    }
}

/// The number that `s` writes without a minus sign, where it fits into an `u16`.
pub open spec fn u16_value(s: Seq<char>) -> Option<u16> {
    let digits = if s.len() > 0 && s[0] == '+' {
        s.drop_first()
    } else {
        s
    };
    if all_digits(digits) && digits_value(digits) <= 65535 {
        Some(digits_value(digits) as u16)
    } else {
        None
    }
}

/// Reads a number without a minus sign that fits into an `u16`.
pub fn parse_u16(cs: &[char]) -> (r: Option<u16>)
    ensures
        r == u16_value(cs@),
{
    if cs.len() > 0 && cs[0] == '-' {
        assert(!is_digit(cs@[0]));
        return None;
    }
    proof {
        let digits = if cs@.len() > 0 && cs@[0] == '+' {
            cs@.drop_first()
        } else {
            cs@
        };
        if all_digits(digits) {
            lemma_digits_nonneg(digits);
        }
    }
    match parse_i64(cs) {
        Some(v) => if 0 <= v && v <= 65535 {
            Some(v as u16)
        } else {
            None
        },
        None => None,
    }
}

proof fn lemma_digits_nonneg(s: Seq<char>)
    requires
        forall|i: int| 0 <= i < s.len() ==> is_digit(#[trigger] s[i]),
    ensures
        digits_value(s) >= 0,
    decreases s.len(),
{
    if s.len() > 0 {
        assert forall|i: int| 0 <= i < s.len() - 1 implies is_digit(#[trigger] s.drop_last()[i]) by {
            assert(s.drop_last()[i] == s[i]);
        }
        lemma_digits_nonneg(s.drop_last());
        assert(is_digit(s[s.len() - 1]));
    }
}

/// A copy of a list of texts.
pub fn copy_strings(v: &Vec<String>) -> (out: Vec<String>)
    ensures
        string_views(out@) == string_views(v@),
{
    let mut out: Vec<String> = Vec::new();
    let mut i: usize = 0;
    while i < v.len()
        invariant
            i <= v.len(),
            out@.len() == i,
            forall|j: int| 0 <= j < i ==> (#[trigger] out@[j])@ == v@[j]@,
        decreases v.len() - i,
    {
        out.push(v[i].clone());
        i += 1;
    }
    assert(string_views(out@) =~= string_views(v@));
    out
}

/// What `String::from_utf8_lossy` makes of bytes that are not UTF-8: the text, with U+FFFD
/// for what could not be read.
pub uninterp spec fn lossy_text(bytes: Seq<u8>) -> Seq<char>;

/// The text that `String::from_utf8_lossy` makes of bytes; it depends on the bytes alone.
#[verifier::external_body]
fn replace_invalid(bytes: &[u8]) -> (out: String)
    ensures
        out@ == lossy_text(bytes@),
{
    String::from_utf8_lossy(bytes).into_owned()
}

/// Bytes as text: what they encode where they are UTF-8, else with replacements.
pub open spec fn bytes_text(bytes: Seq<u8>) -> Seq<char> {
    if valid_utf8(bytes) {
        decode_utf8(bytes)
    } else {
        lossy_text(bytes)
    }
}

/// Bytes as text.
pub fn utf8_lossy(bytes: &[u8]) -> (out: String)
    ensures
        out@ == bytes_text(bytes@),
{
    match core::str::from_utf8(bytes) {
        Ok(t) => {
            proof {
                encode_utf8_decode_utf8(t@);
            }
            t.to_owned()
        },
        Err(_) => replace_invalid(bytes),
    }
}

/// Appends the UTF-8 bytes of `s`.
pub fn push_bytes(out: &mut Vec<u8>, s: &str)
    ensures
        final(out)@ == old(out)@ + s.spec_bytes(),
{
    out.extend_from_slice(s.as_bytes());
}

// ---------------------------------------------------------------------------
// Encoded text
// ---------------------------------------------------------------------------

/// Whether `piece` stands at `pos`.
#[verifier::opaque]
pub open spec fn stands_at<T>(buf: Seq<T>, pos: int, piece: Seq<T>) -> bool {
    0 <= pos && pos + piece.len() <= buf.len() && buf.subrange(pos, pos + piece.len()) == piece
}

/// Where two pieces stand one after the other, each of them stands.
pub proof fn lemma_stands_apart<T>(buf: Seq<T>, pos: int, a: Seq<T>, b: Seq<T>)
    requires
        stands_at(buf, pos, a + b),
    ensures
        stands_at(buf, pos, a),
        stands_at(buf, pos + a.len(), b),
{
    reveal(stands_at);
    let both = buf.subrange(pos, pos + (a + b).len());
    assert(buf.subrange(pos, pos + a.len()) =~= a) by {
        assert forall|i: int| 0 <= i < a.len() implies buf[pos + i] == a[i] by {
            assert(both[i] == (a + b)[i]);
        }
    }
    assert(buf.subrange(pos + a.len(), pos + a.len() + b.len()) =~= b) by {
        assert forall|i: int| 0 <= i < b.len() implies buf[pos + a.len() + i] == b[i] by {
            assert(both[a.len() + i] == (a + b)[a.len() + i]);
        }
    }
}

/// A sequence stands at its own beginning.
pub proof fn lemma_stands_whole<T>(buf: Seq<T>)
    ensures
        stands_at(buf, 0, buf),
{
    reveal(stands_at);
    assert(buf.subrange(0, buf.len() as int) =~= buf);
}

/// Text is encoded piece by piece.
pub proof fn lemma_encode_concat(a: Seq<char>, b: Seq<char>)
    ensures
        encode_utf8(a + b) == encode_utf8(a) + encode_utf8(b),
    decreases a.len(),
{
    if a.len() == 0 {
        assert(a + b =~= b);
        assert(encode_utf8(a) + encode_utf8(b) =~= encode_utf8(b));
    } else {
        assert((a + b).drop_first() =~= a.drop_first() + b);
        lemma_encode_concat(a.drop_first(), b);
        assert(encode_utf8(a + b) =~= encode_utf8(a) + encode_utf8(b));
    }
}

/// The bytes of one character: one byte below 128 that is the character itself, or bytes that are
/// all at least 128.
pub proof fn lemma_encode_char(c: char)
    ensures
        (c as u32) < 128 ==> encode_scalar(c as u32) == seq![c as u8] && (c as u8) as char == c,
        (c as u32) >= 128 ==> forall|i: int|
            0 <= i < encode_scalar(c as u32).len() ==> #[trigger] encode_scalar(c as u32)[i] >= 128,
        encode_scalar(c as u32).len() > 0,
{
    let u = c as u32;
    if u < 128 {
        assert((u & 0x7F) as u8 == u as u8) by (bit_vector)
            requires
                u < 128,
        ;
        assert(encode_scalar(u) =~= seq![c as u8]);
    } else {
        assert(0xC0u8 | ((u >> 6) & 0x1F) as u8 >= 128) by (bit_vector);
        assert(0xE0u8 | ((u >> 12) & 0x0F) as u8 >= 128) by (bit_vector);
        assert(0xF0u8 | ((u >> 18) & 0x7) as u8 >= 128) by (bit_vector);
        assert(0x80u8 | (u & 0x3F) as u8 >= 128) by (bit_vector);
        assert(0x80u8 | ((u >> 6) & 0x3F) as u8 >= 128) by (bit_vector);
        assert(0x80u8 | ((u >> 12) & 0x3F) as u8 >= 128) by (bit_vector);
    }
}

/// A byte below 128 stands in the encoding only where the text has that character.
pub proof fn lemma_encode_without(s: Seq<char>, b: u8)
    requires
        b < 128,
        forall|i: int| 0 <= i < s.len() ==> #[trigger] s[i] != b as char,
    ensures
        forall|i: int| 0 <= i < encode_utf8(s).len() ==> #[trigger] encode_utf8(s)[i] != b,
    decreases s.len(),
{
    if s.len() > 0 {
        let t = s.drop_first();
        assert forall|i: int| 0 <= i < t.len() implies #[trigger] t[i] != b as char by {
            assert(t[i] == s[i + 1]);
        }
        lemma_encode_without(t, b);
        lemma_encode_char(s[0]);
        assert(s[0] != b as char);
        let head = encode_scalar(s[0] as u32);
        assert forall|i: int| 0 <= i < encode_utf8(s).len() implies #[trigger] encode_utf8(s)[i]
            != b by {
            if i < head.len() {
                assert(encode_utf8(s)[i] == head[i]);
            } else {
                assert(encode_utf8(s)[i] == encode_utf8(t)[i - head.len()]);
            }
        }
    }
}

/// A number in hexadecimal reads back as the number.
pub proof fn lemma_hex_reads_back(n: nat)
    ensures
        all_hex(hex(n)),
        hex_value(hex(n)) == n,
        hex_int_value(hex(n)) == Some(n as int),
        forall|i: int| 0 <= i < hex(n).len() ==> is_digit(#[trigger] hex(n)[i]) || 'a' <= hex(n)[i]
            <= 'f',
    decreases n,
{
    if n < 16 {
        assert(hex(n).drop_last() =~= Seq::<char>::empty());
        assert(hex(n)[0] == hex_char(n as int));
        assert(hex_digit_value(hex(n).last()) == Some(n as int));
        assert(hex_value(hex(n).drop_last()) == 0);
    } else {
        lemma_hex_reads_back(n / 16);
        assert(hex(n).drop_last() =~= hex(n / 16));
        assert(hex(n).last() == hex_char((n % 16) as int));
        assert(hex_digit_value(hex(n).last()) == Some((n % 16) as int));
        assert(hex_value(hex(n)) == n);
        assert forall|i: int| 0 <= i < hex(n).len() implies is_digit(#[trigger] hex(n)[i]) || 'a'
            <= hex(n)[i] <= 'f' by {
            if i < hex(n / 16).len() {
                assert(hex(n)[i] == hex(n / 16)[i]);
            }
        }
    }
}

/// A number in decimal reads back as the number.
pub proof fn lemma_dec_reads_back(n: nat)
    ensures
        all_digits(dec(n)),
        digits_value(dec(n)) == n,
        int_value(dec(n)) == Some(n as int),
    decreases n,
{
    if n < 10 {
        assert(dec(n).drop_last() =~= Seq::<char>::empty());
        assert(dec(n)[0] == digit_char(n as int));
        assert(dec(n).last() as int == 48 + n);
        assert(digits_value(dec(n).drop_last()) == 0);
    } else {
        lemma_dec_reads_back(n / 10);
        assert(dec(n).drop_last() =~= dec(n / 10));
        assert(dec(n).last() == digit_char((n % 10) as int));
        assert(dec(n).last() as int == 48 + n % 10);
        assert(digits_value(dec(n)) == n);
        assert forall|i: int| 0 <= i < dec(n).len() implies is_digit(#[trigger] dec(n)[i]) by {
            if i < dec(n / 10).len() {
                assert(dec(n)[i] == dec(n / 10)[i]);
            }
        }
    }
    assert(is_digit(dec(n)[0]));
}

} // verus!
