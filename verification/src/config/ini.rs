//! A small INI reader that hands each value to a sink.
//!
//! Lines are `key = value`, `[section]` or `[section "name"]`; `;` and `#` begin a comment
//! outside double quotes. Unknown keys and sections only give warnings; a malformed line or a
//! value of the wrong kind stops the reading.

use vstd::prelude::*;
use vstd::slice::slice_subrange;
use vstd::string::*;
use vstd::utf8::*;

use super::ConfigError;
use crate::text;
use crate::text::{chars_of, debug_string, find_char, split_chars, str_eq, string_of,
    trim_chars, trim_end_blank_chars};

verus! {

/// Lines of this many bytes or more are refused.
pub const MAX_LINE_BYTES: usize = 1048576;

// ---------------------------------------------------------------------------
// One line
// ---------------------------------------------------------------------------

/// Length of `s` up to the first `;` or `#` that stands outside double quotes.
pub open spec fn code_len(s: Seq<char>, quoted: bool) -> nat
    decreases s.len(),
{
    if s.len() == 0 {
        0
    } else if s[0] == '"' {
        1 + code_len(s.drop_first(), !quoted)
    } else if !quoted && (s[0] == ';' || s[0] == '#') {
        0
    } else {
        1 + code_len(s.drop_first(), quoted)
    }
}

/// What is left of a line without its comment and outer white space; `None` if nothing is.
pub open spec fn stripped(line: Seq<char>) -> Option<Seq<char>> {
    let s = text::trim(line);
    let out = text::trim_end_blank(s.take(code_len(s, false) as int));
    if out.len() == 0 {
        None
    } else {
        Some(out)
    }
}

/// Section name and subsection name (empty where there is none) of a header line.
pub open spec fn header_parts(s: Seq<char>) -> Result<(Seq<char>, Seq<char>), Seq<char>> {
    if s.len() < 3 || s.last() != ']' {
        Err("invalid section header "@ + text::debug_text(s))
    } else {
        let inner = text::trim(s.subrange(1, s.len() - 1));
        if inner.len() == 0 {
            Err("empty section header"@)
        } else {
            match text::find(inner, ' ') {
                Some(sp) => if sp > 0 {
                    let rest = text::trim(inner.skip(sp + 1));
                    if rest.len() < 2 || rest[0] != '"' || rest.last() != '"' {
                        Err("subsection name must be quoted: "@ + text::debug_text(s))
                    } else {
                        Ok((text::trim(inner.take(sp)), rest.subrange(1, rest.len() - 1)))
                    }
                } else {
                    Ok((inner, Seq::empty()))
                },
                None => Ok((inner, Seq::empty())),
            }
        }
    }
}

/// `s` without the double quotes around it, where it has them.
pub open spec fn unquoted(s: Seq<char>) -> Seq<char> {
    if s.len() >= 2 && s[0] == '"' && s.last() == '"' {
        s.subrange(1, s.len() - 1)
    } else {
        s
    }
}

/// Key and value of a `key = value` line.
pub open spec fn key_value_parts(s: Seq<char>) -> Result<(Seq<char>, Seq<char>), Seq<char>> {
    match text::find(s, '=') {
        None => Err("missing '=' in "@ + text::debug_text(s)),
        Some(eq) => {
            let key = text::trim(s.take(eq));
            if key.len() == 0 {
                Err("empty key in "@ + text::debug_text(s))
            } else {
                Ok((key, unquoted(text::trim(s.skip(eq + 1)))))
            }
        },
    }
}

/// A pair of strings, or a message, as sequences of characters.
pub open spec fn pair_view(r: Result<(String, String), String>) -> Result<
    (Seq<char>, Seq<char>),
    Seq<char>,
> {
    match r {
        Ok((a, b)) => Ok((a@, b@)),
        Err(m) => Err(m@),
    }
}

/// Removes the comment and the outer white space of a line.
pub fn strip_comment_trim(line: &[char]) -> (r: Option<String>)
    ensures
        match r {
            Some(s) => stripped(line@) == Some(s@),
            None => stripped(line@) is None,
        },
{
    let s = trim_chars(line);
    let mut quoted = false;
    let mut cut: usize = 0;
    assert(s@.skip(0) =~= s@);
    while cut < s.len()
        invariant_except_break
            cut <= s.len(),
            code_len(s@, false) == cut + code_len(s@.skip(cut as int), quoted),
        ensures
            cut <= s.len(),
            code_len(s@, false) == cut,
        decreases s.len() - cut,
    {
        let c = s[cut];
        assert(s@.skip(cut as int).drop_first() =~= s@.skip(cut + 1));
        if c == '"' {
            quoted = !quoted;
        } else if !quoted && (c == ';' || c == '#') {
            break;
        }
        cut += 1;
    }
    let code = slice_subrange(s, 0, cut);
    assert(code@ =~= s@.take(cut as int));
    let out = trim_end_blank_chars(code);
    if out.len() == 0 {
        None
    } else {
        Some(string_of(out))
    }
}

/// Reads `[name]` or `[name "subname"]`.
pub fn parse_section_header(s: &str) -> (r: Result<(String, String), String>)
    ensures
        pair_view(r) == header_parts(s@),
{
    let cs = chars_of(s);
    if cs.len() < 3 || cs[cs.len() - 1] != ']' {
        let mut m = "invalid section header ".to_owned();
        m.append(debug_string(s).as_str());
        return Err(m);
    }
    let inner = trim_chars(slice_subrange(cs.as_slice(), 1, cs.len() - 1));
    if inner.len() == 0 {
        return Err("empty section header".to_owned());
    }
    match find_char(inner, ' ') {
        Some(sp) => {
            if sp > 0 {
                assert(inner@.subrange(0, sp as int) =~= inner@.take(sp as int));
                assert(inner@.subrange(sp + 1, inner@.len() as int) =~= inner@.skip(sp + 1));
                let name = trim_chars(slice_subrange(inner, 0, sp));
                let rest = trim_chars(slice_subrange(inner, sp + 1, inner.len()));
                if rest.len() < 2 || rest[0] != '"' || rest[rest.len() - 1] != '"' {
                    let mut m = "subsection name must be quoted: ".to_owned();
                    m.append(debug_string(s).as_str());
                    return Err(m);
                }
                return Ok((string_of(name), string_of(slice_subrange(rest, 1, rest.len() - 1))));
            }
        },
        None => {},
    }
    Ok((string_of(inner), String::new()))
}

/// Reads `key = value`; double quotes around the value are taken off.
pub fn parse_key_value(s: &str) -> (r: Result<(String, String), String>)
    ensures
        pair_view(r) == key_value_parts(s@),
{
    let cs = chars_of(s);
    let eq: usize = match find_char(cs.as_slice(), '=') {
        Some(i) => i,
        None => {
            let mut m = "missing '=' in ".to_owned();
            m.append(debug_string(s).as_str());
            return Err(m);
        },
    };
    assert(cs@.subrange(0, eq as int) =~= cs@.take(eq as int));
    assert(cs@.subrange(eq + 1, cs@.len() as int) =~= cs@.skip(eq + 1));
    let key = trim_chars(slice_subrange(cs.as_slice(), 0, eq));
    if key.len() == 0 {
        let mut m = "empty key in ".to_owned();
        m.append(debug_string(s).as_str());
        return Err(m);
    }
    let value = trim_chars(slice_subrange(cs.as_slice(), eq + 1, cs.len()));
    let value = if value.len() >= 2 && value[0] == '"' && value[value.len() - 1] == '"' {
        slice_subrange(value, 1, value.len() - 1)
    } else {
        value
    };
    Ok((string_of(key), string_of(value)))
}

// ---------------------------------------------------------------------------
// Values
// ---------------------------------------------------------------------------

/// The integer of a setting: empty is 0, else an integer in the range of `i32`.
pub open spec fn int_setting(value: Seq<char>) -> Option<int> {
    if value.len() == 0 {
        Some(0)
    } else {
        match text::int_value(value) {
            Some(n) => if i32::MIN <= n <= i32::MAX {
                Some(n)
            } else {
                None
            },
            None => None,
        }
    }
}

/// The flag of a setting: `true`, `1`, `false`, `0` in any letter case; empty is false.
pub open spec fn bool_setting(value: Seq<char>) -> Option<bool> {
    let l = text::lower_all(value);
    if l == "true"@ || l == "1"@ {
        Some(true)
    } else if l == "false"@ || l == "0"@ || l == ""@ {
        Some(false)
    } else {
        None
    }
}

/// Message for a value that is no integer.
pub open spec fn int_fault(value: Seq<char>, key: Seq<char>) -> Seq<char> {
    text::debug_text(key) + " expects int, got "@ + text::debug_text(value)
}

/// Message for a value that is no flag.
pub open spec fn bool_fault(value: Seq<char>, key: Seq<char>) -> Seq<char> {
    text::debug_text(key) + " expects bool (true/false/1/0), got "@ + text::debug_text(value)
}

/// The non-empty trimmed pieces.
pub open spec fn trimmed_pieces(pieces: Seq<Seq<char>>) -> Seq<Seq<char>>
    decreases pieces.len(),
{
    if pieces.len() == 0 {
        Seq::empty()
    } else {
        let rest = trimmed_pieces(pieces.drop_last());
        let p = text::trim(pieces.last());
        if p.len() == 0 {
            rest
        } else {
            rest.push(p)
        }
    }
}

/// The list of a setting: pieces between commas, trimmed, without the empty ones.
pub open spec fn list_setting(value: Seq<char>) -> Seq<Seq<char>> {
    trimmed_pieces(text::split(value, ','))
}

/// What can stand in a list: text without commas that neither begins nor ends with white space.
pub open spec fn list_item(item: Seq<char>) -> bool {
    &&& item.len() > 0
    &&& !text::is_space(item[0])
    &&& !text::is_space(item.last())
    &&& forall|j: int| 0 <= j < item.len() ==> item[j] != ','
}

/// The items of a list with a comma and a space between them.
pub open spec fn joined(items: Seq<Seq<char>>) -> Seq<char>
    decreases items.len(),
{
    if items.len() == 0 {
        Seq::empty()
    } else if items.len() == 1 {
        items[0]
    } else {
        items[0] + ", "@ + joined(items.drop_first())
    }
}

proof fn lemma_list_items(pieces: Seq<Seq<char>>)
    requires
        forall|i: int, j: int|
            0 <= i < pieces.len() && 0 <= j < pieces[i].len() ==> #[trigger] pieces[i][j] != ',',
    ensures
        forall|i: int|
            0 <= i < trimmed_pieces(pieces).len() ==> list_item(#[trigger] trimmed_pieces(pieces)[i]),
    decreases pieces.len(),
{
    if pieces.len() > 0 {
        let front = pieces.drop_last();
        assert forall|i: int, j: int|
            0 <= i < front.len() && 0 <= j < front[i].len() implies #[trigger] front[i][j] != ','
            by {
            assert(front[i] == pieces[i]);
            assert(pieces[i][j] != ',');
        }
        lemma_list_items(front);
        let last = pieces[pieces.len() - 1];
        assert forall|j: int| 0 <= j < last.len() implies last[j] != ',' by {
            assert(pieces[pieces.len() - 1][j] != ',');
        }
        text::lemma_trimmed(last, ',');
        let all = trimmed_pieces(pieces);
        let before = trimmed_pieces(front);
        assert forall|i: int| 0 <= i < all.len() implies list_item(#[trigger] all[i]) by {
            if i < before.len() {
                assert(all[i] == before[i]);
            } else {
                assert(all[i] == text::trim(last));
            }
        }
    }
}

/// The first piece stands first, where it is not empty.
proof fn lemma_first_piece(first: Seq<char>, rest: Seq<Seq<char>>)
    ensures
        trimmed_pieces(seq![first] + rest) == (if text::trim(first).len() == 0 {
            Seq::empty()
        } else {
            seq![text::trim(first)]
        }) + trimmed_pieces(rest),
    decreases rest.len(),
{
    let all = seq![first] + rest;
    if rest.len() == 0 {
        assert(all.drop_last() =~= Seq::<Seq<char>>::empty());
        assert(trimmed_pieces(all.drop_last()) =~= Seq::<Seq<char>>::empty());
        assert(trimmed_pieces(rest) =~= Seq::<Seq<char>>::empty());
        assert(all.last() == first);
    } else {
        assert(all.drop_last() =~= seq![first] + rest.drop_last());
        assert(all.last() == rest.last());
        lemma_first_piece(first, rest.drop_last());
    }
}

/// Joined items are read one by one, whether or not a space stands before them.
pub proof fn lemma_joined(space: Seq<char>, items: Seq<Seq<char>>)
    requires
        space.len() == 0 || space == seq![' '],
        forall|i: int| 0 <= i < items.len() ==> list_item(#[trigger] items[i]),
    ensures
        list_setting(space + joined(items)) == items,
    decreases items.len(),
{
    reveal_strlit(", ");
    let s = space + joined(items);
    if items.len() == 0 {
        assert(s =~= space);
        assert forall|j: int| 0 <= j < s.len() implies s[j] != ',' by {}
        text::lemma_find_none(s, ',');
        lemma_first_piece(s, Seq::empty());
        assert(seq![s] + Seq::<Seq<char>>::empty() =~= seq![s]);
        assert(text::trim_start(space) =~= Seq::<char>::empty()) by {
            if space.len() > 0 {
                assert(text::is_space(space[0]));
                assert(space.drop_first() =~= Seq::<char>::empty());
                assert(text::trim_start(space.drop_first()) =~= Seq::<char>::empty());
            }
        }
        assert(trimmed_pieces(Seq::<Seq<char>>::empty()) =~= Seq::<Seq<char>>::empty());
        assert(list_setting(s) =~= items);
    } else {
        let item = items[0];
        let head = space + item;
        assert(list_item(item));
        assert forall|j: int| 0 <= j < head.len() implies head[j] != ',' by {
            if j >= space.len() {
                assert(head[j] == item[j - space.len()]);
            }
        }
        assert(text::trim(head) == item) by {
            assert(head.skip(space.len() as int) =~= item);
            if space.len() > 0 {
                assert(head.drop_first() =~= item);
            }
            assert(text::trim_start(item) == item);
            assert(text::trim_start(head) == item);
        }
        if items.len() == 1 {
            assert(s =~= head);
            text::lemma_find_none(s, ',');
            lemma_first_piece(s, Seq::empty());
            assert(seq![s] + Seq::<Seq<char>>::empty() =~= seq![s]);
            assert(trimmed_pieces(Seq::<Seq<char>>::empty()) =~= Seq::<Seq<char>>::empty());
            assert(list_setting(s) =~= items);
        } else {
            let rest = items.drop_first();
            assert forall|i: int| 0 <= i < rest.len() implies list_item(#[trigger] rest[i]) by {
                assert(rest[i] == items[i + 1]);
            }
            lemma_joined(seq![' '], rest);
            let tail = seq![' '] + joined(rest);
            assert(s =~= head.push(',') + tail);
            text::lemma_split_at(head, ',', tail);
            lemma_first_piece(head, text::split(tail, ','));
            assert(seq![item] + rest =~= items);
        }
    }
}

/// A list that was read holds only items, and reads the same when its items are written with a
/// comma and a space between them.
pub proof fn law_list_reads_back(value: Seq<char>)
    ensures
        forall|i: int|
            0 <= i < list_setting(value).len() ==> list_item(#[trigger] list_setting(value)[i]),
        list_setting(joined(list_setting(value))) == list_setting(value),
{
    text::lemma_pieces(value, ',');
    lemma_list_items(text::split(value, ','));
    let items = list_setting(value);
    lemma_joined(Seq::empty(), items);
    assert(Seq::<char>::empty() + joined(items) =~= joined(items));
}

/// Reads an integer setting.
pub fn conv_int(value: &str, key: &str) -> (r: Result<i64, String>)
    ensures
        match r {
            Ok(n) => int_setting(value@) == Some(n as int),
            Err(m) => int_setting(value@) is None && m@ == int_fault(value@, key@),
        },
{
    let cs = chars_of(value);
    if cs.len() == 0 {
        return Ok(0);
    }
    match text::parse_i64(cs.as_slice()) {
        Some(n) => if -0x8000_0000 <= n && n <= 0x7fff_ffff {
            return Ok(n);
        },
        None => {},
    }
    let mut m = debug_string(key);
    m.append(" expects int, got ");
    m.append(debug_string(value).as_str());
    Err(m)
}

/// Reads a flag setting.
pub fn conv_bool(value: &str, key: &str) -> (r: Result<bool, String>)
    ensures
        match r {
            Ok(b) => bool_setting(value@) == Some(b),
            Err(m) => bool_setting(value@) is None && m@ == bool_fault(value@, key@),
        },
{
    let l = text::lower_chars(chars_of(value).as_slice());
    let l = l.as_slice();
    if text::chars_eq(l, "true") || text::chars_eq(l, "1") {
        return Ok(true);
    }
    if text::chars_eq(l, "false") || text::chars_eq(l, "0") || text::chars_eq(l, "") {
        return Ok(false);
    }
    let mut m = debug_string(key);
    m.append(" expects bool (true/false/1/0), got ");
    m.append(debug_string(value).as_str());
    Err(m)
}

/// Reads a comma-separated list.
pub fn conv_string_array(value: &str) -> (out: Vec<String>)
    ensures
        text::string_views(out@) == list_setting(value@),
{
    let pieces = split_chars(chars_of(value).as_slice(), ',');
    let ghost all = text::split(value@, ',');
    let mut out: Vec<String> = Vec::new();
    let mut i: usize = 0;
    assert(text::string_views(out@) =~= trimmed_pieces(all.take(0)));
    while i < pieces.len()
        invariant
            i <= pieces.len(),
            text::views(pieces@) == all,
            text::string_views(out@) == trimmed_pieces(all.take(i as int)),
        decreases pieces.len() - i,
    {
        assert(all[i as int] == pieces@[i as int]@);
        assert(all.take(i + 1).drop_last() =~= all.take(i as int));
        assert(all.take(i + 1).last() == all[i as int]);
        let ghost before = text::string_views(out@);
        let p = trim_chars(pieces[i].as_slice());
        if p.len() != 0 {
            out.push(string_of(p));
            assert(text::string_views(out@) =~= before.push(p@));
        }
        i += 1;
    }
    assert(all.take(i as int) =~= all);
    out
}

// ---------------------------------------------------------------------------
// Sinks
// ---------------------------------------------------------------------------

/// What became of one value.
#[derive(Debug, Clone, PartialEq, Eq)]
pub enum FieldOutcome {
    /// The key is known and the value was stored.
    Stored,
    /// The key is not known.
    Unknown,
    /// The value is of the wrong kind; the text says how.
    TypeErr(String),
}

/// `FieldOutcome` with its message as a sequence of characters.
pub enum FieldView {
    Stored,
    Unknown,
    TypeErr(Seq<char>),
}

impl View for FieldOutcome {
    type V = FieldView;

    open spec fn view(&self) -> FieldView {
        match self {
            FieldOutcome::Stored => FieldView::Stored,
            FieldOutcome::Unknown => FieldView::Unknown,
            FieldOutcome::TypeErr(m) => FieldView::TypeErr(m@),
        }
    }
}

/// Where the values of an INI file go.
///
/// A sink has settings at the top level, sections that are records, and sections that are
/// lists of records whose elements are filled one after the other.
pub trait IniSink: Sized {
    /// What the sink holds.
    type Model;

    spec fn model(&self) -> Self::Model;

    /// Storing a value at the top level.
    spec fn top_step(m: Self::Model, key: Seq<char>, value: Seq<char>) -> (Self::Model, FieldView);

    /// Whether there is a setting or section of that name.
    spec fn has_section(m: Self::Model, section: Seq<char>) -> bool;

    /// Whether the section is a record.
    spec fn has_struct(m: Self::Model, section: Seq<char>) -> bool;

    /// Whether the section is a list of records.
    spec fn has_slice(m: Self::Model, section: Seq<char>) -> bool;

    /// Storing a value in a record.
    spec fn section_step(
        m: Self::Model,
        section: Seq<char>,
        key: Seq<char>,
        value: Seq<char>,
    ) -> (Self::Model, FieldView);

    /// Number of elements of a list.
    spec fn slice_len(m: Self::Model, section: Seq<char>) -> nat;

    /// Adding an empty element to a list.
    spec fn append_step(m: Self::Model, section: Seq<char>) -> Self::Model;

    /// Storing a value in the last element of a list.
    spec fn subsection_step(
        m: Self::Model,
        section: Seq<char>,
        key: Seq<char>,
        value: Seq<char>,
    ) -> (Self::Model, FieldView);

    fn set_top(&mut self, key: &str, value: &str) -> (r: FieldOutcome)
        ensures
            (final(self).model(), r@) == Self::top_step(old(self).model(), key@, value@),
    ;

    fn section_known(&self, section: &str) -> (r: bool)
        ensures
            r == Self::has_section(self.model(), section@),
    ;

    fn section_is_struct(&self, section: &str) -> (r: bool)
        ensures
            r == Self::has_struct(self.model(), section@),
    ;

    fn section_is_slice(&self, section: &str) -> (r: bool)
        ensures
            r == Self::has_slice(self.model(), section@),
    ;

    fn set_section(&mut self, section: &str, key: &str, value: &str) -> (r: FieldOutcome)
        ensures
            (final(self).model(), r@) == Self::section_step(
                old(self).model(),
                section@,
                key@,
                value@,
            ),
    ;

    fn subsection_len(&self, section: &str) -> (r: usize)
        ensures
            r == Self::slice_len(self.model(), section@),
    ;

    fn append_subsection(&mut self, section: &str)
        ensures
            final(self).model() == Self::append_step(old(self).model(), section@),
    ;

    fn set_subsection(&mut self, section: &str, key: &str, value: &str) -> (r: FieldOutcome)
        ensures
            (final(self).model(), r@) == Self::subsection_step(
                old(self).model(),
                section@,
                key@,
                value@,
            ),
    ;
}

// ---------------------------------------------------------------------------
// The whole file
// ---------------------------------------------------------------------------

/// The state between two lines.
pub struct IniState<M> {
    pub model: M,
    /// Current section, empty at the top level.
    pub section: Seq<char>,
    /// Current subsection, empty where there is none.
    pub subname: Seq<char>,
    /// For each list section, the subsection whose element is being filled.
    pub filling: Map<Seq<char>, Seq<char>>,
    pub warnings: Seq<Seq<char>>,
}

pub open spec fn unknown_section(s: Seq<char>) -> Seq<char> {
    "config: unknown section ["@ + s + "]"@
}

pub open spec fn unknown_subsection(s: Seq<char>, sub: Seq<char>) -> Seq<char> {
    "config: unknown subsection ["@ + s + " "@ + text::debug_text(sub) + "]"@
}

pub open spec fn unknown_key(key: Seq<char>) -> Seq<char> {
    "config: unknown key "@ + text::debug_text(key)
}

pub open spec fn unknown_key_in(key: Seq<char>, s: Seq<char>) -> Seq<char> {
    unknown_key(key) + " in ["@ + s + "]"@
}

pub open spec fn unknown_key_in_sub(key: Seq<char>, s: Seq<char>, sub: Seq<char>) -> Seq<char> {
    unknown_key(key) + " in ["@ + s + " "@ + text::debug_text(sub) + "]"@
}

pub open spec fn not_a_struct(s: Seq<char>) -> Seq<char> {
    "section ["@ + s + "] expected struct field"@
}

pub open spec fn not_a_slice(s: Seq<char>, sub: Seq<char>) -> Seq<char> {
    "subsection ["@ + s + " "@ + text::debug_text(sub) + "] expected slice field"@
}

/// The state after a header, with a warning where the section is not known.
pub open spec fn header_step<S: IniSink>(
    st: IniState<S::Model>,
    name: Seq<char>,
    sub: Seq<char>,
) -> IniState<S::Model> {
    let warnings = if name.len() == 0 || S::has_section(st.model, name) {
        st.warnings
    } else if sub.len() == 0 {
        st.warnings.push(unknown_section(name))
    } else {
        st.warnings.push(unknown_subsection(name, sub))
    };
    IniState { section: name, subname: sub, warnings, ..st }
}

/// The state after a value was handed over, and the message if the value was refused.
pub open spec fn outcome_step<M>(
    st: IniState<M>,
    r: (M, FieldView),
    warning: Seq<char>,
) -> (IniState<M>, Option<Seq<char>>) {
    let next = IniState { model: r.0, ..st };
    match r.1 {
        FieldView::Stored => (next, None),
        FieldView::Unknown => (IniState { warnings: st.warnings.push(warning), ..next }, None),
        FieldView::TypeErr(m) => (next, Some(m)),
    }
}

/// The state in which the element for the current subsection stands last in its list.
pub open spec fn element_step<S: IniSink>(st: IniState<S::Model>) -> IniState<S::Model> {
    if st.filling.dom().contains(st.section) && st.filling[st.section] == st.subname
        && S::slice_len(st.model, st.section) != 0 {
        st
    } else {
        IniState {
            model: S::append_step(st.model, st.section),
            filling: st.filling.insert(st.section, st.subname),
            ..st
        }
    }
}

/// The state after `key = value`, and the message if it was refused.
pub open spec fn value_step<S: IniSink>(
    st: IniState<S::Model>,
    key: Seq<char>,
    value: Seq<char>,
) -> (IniState<S::Model>, Option<Seq<char>>) {
    if st.section.len() == 0 {
        outcome_step(st, S::top_step(st.model, key, value), unknown_key(key))
    } else if !S::has_section(st.model, st.section) {
        (st, None)
    } else if st.subname.len() == 0 {
        if !S::has_struct(st.model, st.section) {
            (st, Some(not_a_struct(st.section)))
        } else {
            outcome_step(
                st,
                S::section_step(st.model, st.section, key, value),
                unknown_key_in(key, st.section),
            )
        }
    } else if !S::has_slice(st.model, st.section) {
        (st, Some(not_a_slice(st.section, st.subname)))
    } else {
        let at = element_step::<S>(st);
        outcome_step(
            at,
            S::subsection_step(at.model, st.section, key, value),
            unknown_key_in_sub(key, st.section, st.subname),
        )
    }
}

/// The state after one line, and the message if the line was refused.
pub open spec fn line_step<S: IniSink>(st: IniState<S::Model>, raw: Seq<char>) -> (
    IniState<S::Model>,
    Option<Seq<char>>,
) {
    if encode_utf8(raw).len() >= MAX_LINE_BYTES {
        (st, Some("line too long (> 1 MiB)"@))
    } else {
        match stripped(raw) {
            None => (st, None),
            Some(line) => if line[0] == '[' {
                match header_parts(line) {
                    Ok((name, sub)) => (header_step::<S>(st, name, sub), None),
                    Err(m) => (st, Some(m)),
                }
            } else {
                match key_value_parts(line) {
                    Ok((key, value)) => value_step::<S>(st, key, value),
                    Err(m) => (st, Some(m)),
                }
            },
        }
    }
}

/// The state after the lines, the first of which has the number `no`; where a line is refused
/// the reading ends there with its number and the message.
pub open spec fn lines_step<S: IniSink>(
    st: IniState<S::Model>,
    lines: Seq<Seq<char>>,
    no: nat,
) -> (IniState<S::Model>, Option<(nat, Seq<char>)>)
    decreases lines.len(),
{
    if lines.len() == 0 {
        (st, None)
    } else {
        let (next, fault) = line_step::<S>(st, lines[0]);
        match fault {
            Some(m) => (next, Some((no, m))),
            None => lines_step::<S>(next, lines.drop_first(), no + 1),
        }
    }
}

/// The state at the end of the file `input`, read into a sink that holds `m`.
pub open spec fn file_step<S: IniSink>(m: S::Model, input: Seq<char>) -> (
    IniState<S::Model>,
    Option<(nat, Seq<char>)>,
) {
    lines_step::<S>(
        (IniState {
            model: m,
            section: Seq::empty(),
            subname: Seq::empty(),
            filling: Map::empty(),
            warnings: Seq::empty(),
        }),
        text::split(input, '\n'),
        1,
    )
}

/// A list of pairs as a map; of two entries with one key the first counts.
pub open spec fn pairs_map(v: Seq<(String, String)>) -> Map<Seq<char>, Seq<char>>
    decreases v.len(),
{
    if v.len() == 0 {
        Map::empty()
    } else {
        pairs_map(v.drop_first()).insert(v[0].0@, v[0].1@)
    }
}

proof fn lemma_pairs_skip(v: Seq<(String, String)>, k: Seq<char>, i: int)
    requires
        0 <= i <= v.len(),
        forall|j: int| 0 <= j < i ==> (#[trigger] v[j]).0@ != k,
    ensures
        pairs_map(v).dom().contains(k) == pairs_map(v.skip(i)).dom().contains(k),
        pairs_map(v).dom().contains(k) ==> pairs_map(v)[k] == pairs_map(v.skip(i))[k],
    decreases i,
{
    if i == 0 {
        assert(v.skip(0) =~= v);
    } else {
        assert(v[0].0@ != k);
        assert forall|j: int| 0 <= j < i - 1 implies (#[trigger] v.drop_first()[j]).0@ != k by {
            assert(v.drop_first()[j] == v[j + 1]);
        }
        lemma_pairs_skip(v.drop_first(), k, i - 1);
        assert(v.drop_first().skip(i - 1) =~= v.skip(i));
    }
}

proof fn lemma_pairs_update(v: Seq<(String, String)>, i: int, e: (String, String))
    requires
        0 <= i < v.len(),
        v[i].0@ == e.0@,
        forall|j: int| 0 <= j < i ==> (#[trigger] v[j]).0@ != e.0@,
    ensures
        pairs_map(v.update(i, e)) == pairs_map(v).insert(e.0@, e.1@),
    decreases i,
{
    let u = v.update(i, e);
    if i == 0 {
        assert(u.drop_first() =~= v.drop_first());
        assert(pairs_map(u) =~= pairs_map(v).insert(e.0@, e.1@));
    } else {
        assert(v[0].0@ != e.0@);
        assert forall|j: int| 0 <= j < i - 1 implies (#[trigger] v.drop_first()[j]).0@ != e.0@ by {
            assert(v.drop_first()[j] == v[j + 1]);
        }
        lemma_pairs_update(v.drop_first(), i - 1, e);
        assert(u.drop_first() =~= v.drop_first().update(i - 1, e));
        assert(pairs_map(u) =~= pairs_map(v).insert(e.0@, e.1@));
    }
}

proof fn lemma_pairs_push(v: Seq<(String, String)>, e: (String, String))
    requires
        forall|j: int| 0 <= j < v.len() ==> (#[trigger] v[j]).0@ != e.0@,
    ensures
        pairs_map(v.push(e)) == pairs_map(v).insert(e.0@, e.1@),
    decreases v.len(),
{
    let u = v.push(e);
    if v.len() == 0 {
        assert(u.drop_first() =~= v);
    } else {
        assert(v[0].0@ != e.0@);
        assert forall|j: int| 0 <= j < v.len() - 1 implies (#[trigger] v.drop_first()[j]).0@
            != e.0@ by {
            assert(v.drop_first()[j] == v[j + 1]);
        }
        lemma_pairs_push(v.drop_first(), e);
        assert(u.drop_first() =~= v.drop_first().push(e));
    }
    assert(pairs_map(u) =~= pairs_map(v).insert(e.0@, e.1@));
}

/// Notes that the element of `subname` is being filled in the list `section`.
pub fn set_last_subname(map: &mut Vec<(String, String)>, section: &str, subname: &str)
    ensures
        pairs_map(final(map)@) == pairs_map(old(map)@).insert(section@, subname@),
{
    let entry = (section.to_owned(), subname.to_owned());
    let mut i: usize = 0;
    while i < map.len()
        invariant
            i <= map.len(),
            map@ == old(map)@,
            entry.0@ == section@,
            entry.1@ == subname@,
            forall|j: int| 0 <= j < i ==> (#[trigger] map@[j]).0@ != section@,
        decreases map.len() - i,
    {
        if str_eq(map[i].0.as_str(), section) {
            proof {
                lemma_pairs_update(map@, i as int, entry);
            }
            map.set(i, entry);
            return;
        }
        i += 1;
    }
    proof {
        lemma_pairs_push(map@, entry);
    }
    map.push(entry);
}

fn is_filling(map: &Vec<(String, String)>, section: &str, subname: &str) -> (r: bool)
    ensures
        r == (pairs_map(map@).dom().contains(section@) && pairs_map(map@)[section@] == subname@),
{
    let mut i: usize = 0;
    while i < map.len()
        invariant
            i <= map.len(),
            forall|j: int| 0 <= j < i ==> (#[trigger] map@[j]).0@ != section@,
        decreases map.len() - i,
    {
        proof {
            lemma_pairs_skip(map@, section@, i as int);
            assert(map@.skip(i as int)[0] == map@[i as int]);
        }
        if str_eq(map[i].0.as_str(), section) {
            return str_eq(map[i].1.as_str(), subname);
        }
        i += 1;
    }
    proof {
        lemma_pairs_skip(map@, section@, map@.len() as int);
        assert(map@.skip(map@.len() as int) =~= Seq::empty());
    }
    false
}

fn warn_key(key: &str) -> (out: String)
    ensures
        out@ == unknown_key(key@),
{
    let mut out = "config: unknown key ".to_owned();
    out.append(debug_string(key).as_str());
    out
}

/// The reader's own part of the state between two lines.
struct Reader {
    section: String,
    subname: String,
    filling: Vec<(String, String)>,
    warnings: Vec<String>,
}

impl Reader {
    spec fn state<M>(&self, model: M) -> IniState<M> {
        IniState {
            model,
            section: self.section@,
            subname: self.subname@,
            filling: pairs_map(self.filling@),
            warnings: text::string_views(self.warnings@),
        }
    }

    fn warn(&mut self, m: String)
        ensures
            final(self).section == old(self).section,
            final(self).subname == old(self).subname,
            final(self).filling == old(self).filling,
            text::string_views(final(self).warnings@) == text::string_views(
                old(self).warnings@,
            ).push(m@),
    {
        self.warnings.push(m);
        assert(text::string_views(self.warnings@) =~= text::string_views(old(self).warnings@).push(
            m@,
        ));
    }

    /// Adds a warning or hands on a refusal.
    fn outcome(&mut self, r: FieldOutcome, warning: String) -> (e: Option<String>)
        ensures
            final(self).section == old(self).section,
            final(self).subname == old(self).subname,
            final(self).filling == old(self).filling,
            r@ is Unknown ==> text::string_views(final(self).warnings@) == text::string_views(
                old(self).warnings@,
            ).push(warning@),
            r@ !is Unknown ==> final(self).warnings == old(self).warnings,
            match e {
                None => r@ !is TypeErr,
                Some(m) => r@ == FieldView::TypeErr(m@),
            },
    {
        match r {
            FieldOutcome::Stored => None,
            FieldOutcome::Unknown => {
                self.warn(warning);
                None
            },
            FieldOutcome::TypeErr(m) => Some(m),
        }
    }

    fn header<S: IniSink>(&mut self, sink: &S, name: String, sub: String)
        ensures
            final(self).state(sink.model()) == header_step::<S>(
                old(self).state(sink.model()),
                name@,
                sub@,
            ),
    {
        if !name.as_str().is_empty() && !sink.section_known(name.as_str()) {
            if sub.as_str().is_empty() {
                let mut m = "config: unknown section [".to_owned();
                m.append(name.as_str());
                m.append("]");
                self.warn(m);
            } else {
                let mut m = "config: unknown subsection [".to_owned();
                m.append(name.as_str());
                m.append(" ");
                m.append(debug_string(sub.as_str()).as_str());
                m.append("]");
                self.warn(m);
            }
        }
        self.section = name;
        self.subname = sub;
    }

    fn value<S: IniSink>(&mut self, sink: &mut S, key: &str, value: &str) -> (e: Option<String>)
        ensures
            ({
                let (st, fault) = value_step::<S>(old(self).state(old(sink).model()), key@, value@);
                &&& final(self).state(final(sink).model()) == st
                &&& match e {
                    None => fault is None,
                    Some(m) => fault == Some(m@),
                }
            }),
    {
        if self.section.as_str().is_empty() {
            let r = sink.set_top(key, value);
            return self.outcome(r, warn_key(key));
        }
        if !sink.section_known(self.section.as_str()) {
            return None;
        }
        if self.subname.as_str().is_empty() {
            if !sink.section_is_struct(self.section.as_str()) {
                let mut m = "section [".to_owned();
                m.append(self.section.as_str());
                m.append("] expected struct field");
                return Some(m);
            }
            let r = sink.set_section(self.section.as_str(), key, value);
            let mut w = warn_key(key);
            w.append(" in [");
            w.append(self.section.as_str());
            w.append("]");
            return self.outcome(r, w);
        }
        if !sink.section_is_slice(self.section.as_str()) {
            let mut m = "subsection [".to_owned();
            m.append(self.section.as_str());
            m.append(" ");
            m.append(debug_string(self.subname.as_str()).as_str());
            m.append("] expected slice field");
            return Some(m);
        }
        if !is_filling(&self.filling, self.section.as_str(), self.subname.as_str())
            || sink.subsection_len(self.section.as_str()) == 0 {
            sink.append_subsection(self.section.as_str());
            set_last_subname(&mut self.filling, self.section.as_str(), self.subname.as_str());
        }
        let r = sink.set_subsection(self.section.as_str(), key, value);
        let mut w = warn_key(key);
        w.append(" in [");
        w.append(self.section.as_str());
        w.append(" ");
        w.append(debug_string(self.subname.as_str()).as_str());
        w.append("]");
        self.outcome(r, w)
    }

    fn line<S: IniSink>(&mut self, sink: &mut S, raw: &[char]) -> (e: Option<String>)
        ensures
            ({
                let (st, fault) = line_step::<S>(old(self).state(old(sink).model()), raw@);
                &&& final(self).state(final(sink).model()) == st
                &&& match e {
                    None => fault is None,
                    Some(m) => fault == Some(m@),
                }
            }),
    {
        if string_of(raw).as_str().as_bytes().len() >= MAX_LINE_BYTES {
            return Some("line too long (> 1 MiB)".to_owned());
        }
        let line = match strip_comment_trim(raw) {
            Some(l) => l,
            None => return None,
        };
        if line.as_str().get_char(0) == '[' {
            return match parse_section_header(line.as_str()) {
                Ok((name, sub)) => {
                    self.header(sink, name, sub);
                    None
                },
                Err(m) => Some(m),
            };
        }
        match parse_key_value(line.as_str()) {
            Ok((key, value)) => self.value(sink, key.as_str(), value.as_str()),
            Err(m) => Some(m),
        }
    }
}

/// Reads `input` into `sink` and returns the warnings.
pub fn parse_ini<S: IniSink>(input: &str, sink: &mut S) -> (r: Result<Vec<String>, ConfigError>)
    ensures
        ({
            let (st, fault) = file_step::<S>(old(sink).model(), input@);
            &&& final(sink).model() == st.model
            &&& match r {
                Ok(w) => fault is None && text::string_views(w@) == st.warnings,
                Err(ConfigError::Parse { line, msg }) => fault == Some((line as nat, msg@)),
                Err(_) => false,
            }
        }),
{
    let lines = split_chars(chars_of(input).as_slice(), '\n');
    let ghost all = text::split(input@, '\n');
    let mut reader = Reader {
        section: String::new(),
        subname: String::new(),
        filling: Vec::new(),
        warnings: Vec::new(),
    };
    let ghost end = file_step::<S>(old(sink).model(), input@);
    assert(all.skip(0) =~= all);
    assert(reader.state(sink.model()) == (IniState {
        model: old(sink).model(),
        section: Seq::empty(),
        subname: Seq::empty(),
        filling: Map::empty(),
        warnings: Seq::empty(),
    })) by {
        assert(reader.section@ =~= Seq::empty());
        assert(text::string_views(reader.warnings@) =~= Seq::empty());
    }
    let mut i: usize = 0;
    while i < lines.len()
        invariant
            i <= lines.len(),
            text::views(lines@) == all,
            lines_step::<S>(reader.state(sink.model()), all.skip(i as int), (i + 1) as nat) == end,
            end == file_step::<S>(old(sink).model(), input@),
        decreases lines.len() - i,
    {
        assert(all[i as int] == lines@[i as int]@);
        assert(all.skip(i as int)[0] == all[i as int]);
        assert(all.skip(i as int).drop_first() =~= all.skip(i + 1));
        match reader.line(sink, lines[i].as_slice()) {
            Some(msg) => {
                return Err(ConfigError::Parse { line: i + 1, msg });
            },
            None => {},
        }
        i += 1;
    }
    Ok(reader.warnings)
}

} // verus!
