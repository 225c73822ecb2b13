//! The state file that keeps the two automation flags over a restart.
//!
//! Two lines of text, `auto_unlock=<bool>` and `auto_hangup=<bool>`. Reading is all or
//! nothing: both keys must be there with a valid value and nothing else may be.

use vstd::prelude::*;
use vstd::slice::slice_subrange;
use vstd::string::*;
use vstd::utf8::*;

use crate::text;
use crate::text::{chars_eq, chars_of, find_char, lower_chars, push_bytes, split_chars, trim_chars};

verus! {

/// The two automation flags.
#[derive(Debug, Clone, Copy, PartialEq, Eq, Structural)]
pub struct State {
    pub auto_unlock: bool,
    pub auto_hangup: bool,
}

/// The file is not a complete and valid state file.
#[derive(Debug, Clone, Copy, PartialEq, Eq, Structural)]
pub struct ParseError;

/// The flags seen so far while reading.
pub struct Seen {
    pub auto_unlock: Option<bool>,
    pub auto_hangup: Option<bool>,
}

/// `true`, `false`, `1` or `0`, in any letter case.
pub open spec fn bool_value(s: Seq<char>) -> Option<bool> {
    let l = text::lower_all(s);
    if l == "true"@ || l == "1"@ {
        Some(true)
    } else if l == "false"@ || l == "0"@ {
        Some(false)
    } else {
        None
    }
}

/// Reads one line: blank lines and lines that begin with `;` or `#` change nothing, any other
/// sets one of the two flags or makes the file invalid.
pub open spec fn line_step(line: Seq<char>, seen: Seen) -> Option<Seen> {
    let s = text::trim(line);
    if s.len() == 0 || s[0] == ';' || s[0] == '#' {
        Some(seen)
    } else {
        match text::find(s, '=') {
            None => None,
            Some(eq) => {
                let key = text::trim(s.take(eq));
                if eq == 0 {
                    None
                } else {
                    match bool_value(text::trim(s.skip(eq + 1))) {
                        None => None,
                        Some(b) => if key == "auto_unlock"@ {
                            Some(Seen { auto_unlock: Some(b), ..seen })
                        } else if key == "auto_hangup"@ {
                            Some(Seen { auto_hangup: Some(b), ..seen })
                        } else {
                            None
                        },
                    }
                }
            },
        }
    }
}

/// Reads the lines one after the other.
pub open spec fn lines_step(lines: Seq<Seq<char>>, seen: Seen) -> Option<Seen>
    decreases lines.len(),
{
    if lines.len() == 0 {
        Some(seen)
    } else {
        match line_step(lines[0], seen) {
            Some(next) => lines_step(lines.drop_first(), next),
            None => None,
        }
    }
}

/// The state that the file contents `raw` hold; a later line for a flag wins over an earlier.
pub open spec fn state_value(raw: Seq<u8>) -> Option<State> {
    if !valid_utf8(raw) {
        None
    } else {
        match lines_step(
            text::split(decode_utf8(raw), '\n'),
            (Seen { auto_unlock: None, auto_hangup: None }),
        ) {
            Some(Seen { auto_unlock: Some(u), auto_hangup: Some(h) }) => Some(
                State { auto_unlock: u, auto_hangup: h },
            ),
            _ => None,
        }
    }
}

/// `true` or `false`.
pub open spec fn bool_text(b: bool) -> Seq<char> {
    if b {
        "true"@
    } else {
        "false"@
    }
}

/// The text of the state file for `st`.
pub open spec fn state_text(st: State) -> Seq<char> {
    ("auto_unlock="@ + bool_text(st.auto_unlock)).push('\n') + ("auto_hangup="@ + bool_text(
        st.auto_hangup,
    )).push('\n')
}

/// Reads `true`, `false`, `1` or `0` in any letter case.
pub fn parse_bool(v: &[char]) -> (r: Option<bool>)
    ensures
        r == bool_value(v@),
{
    let l = lower_chars(v);
    if chars_eq(l.as_slice(), "true") || chars_eq(l.as_slice(), "1") {
        Some(true)
    } else if chars_eq(l.as_slice(), "false") || chars_eq(l.as_slice(), "0") {
        Some(false)
    } else {
        None
    }
}

fn read_line(line: &[char], seen: Seen) -> (r: Option<Seen>)
    ensures
        r == line_step(line@, seen),
{
    let s = trim_chars(line);
    if s.len() == 0 || s[0] == ';' || s[0] == '#' {
        return Some(seen);
    }
    let eq: usize = match find_char(s, '=') {
        Some(i) => i,
        None => return None,
    };
    if eq == 0 {
        return None;
    }
    let key = trim_chars(slice_subrange(s, 0, eq));
    assert(s@.subrange(0, eq as int) =~= s@.take(eq as int));
    assert(s@.subrange(eq + 1, s@.len() as int) =~= s@.skip(eq + 1));
    match parse_bool(trim_chars(slice_subrange(s, eq + 1, s.len()))) {
        None => None,
        Some(b) => if chars_eq(key, "auto_unlock") {
            Some(Seen { auto_unlock: Some(b), ..seen })
        } else if chars_eq(key, "auto_hangup") {
            Some(Seen { auto_hangup: Some(b), ..seen })
        } else {
            None
        },
    }
}

/// Reads a state file.
pub fn parse(raw: &[u8]) -> (r: Result<State, ParseError>)
    ensures
        r == match state_value(raw@) {
            Some(st) => Ok::<State, ParseError>(st),
            None => Err(ParseError),
        },
{
    let t = match core::str::from_utf8(raw) {
        Ok(t) => t,
        Err(_) => return Err(ParseError),
    };
    proof {
        encode_utf8_decode_utf8(t@);
    }
    let lines = split_chars(chars_of(t).as_slice(), '\n');
    let ghost all = text::split(t@, '\n');
    let ghost start = Seen { auto_unlock: None, auto_hangup: None };
    let mut seen = Seen { auto_unlock: None, auto_hangup: None };
    let mut i: usize = 0;
    assert(all.skip(0) =~= all);
    while i < lines.len()
        invariant
            i <= lines.len(),
            text::views(lines@) == all,
            lines_step(all.skip(i as int), seen) == lines_step(all, start),
            valid_utf8(raw@),
            decode_utf8(raw@) == t@,
            all == text::split(t@, '\n'),
            start == (Seen { auto_unlock: None, auto_hangup: None }),
        decreases lines.len() - i,
    {
        assert(all[i as int] == lines@[i as int]@);
        assert(all.skip(i as int).drop_first() =~= all.skip(i + 1));
        match read_line(lines[i].as_slice(), seen) {
            Some(next) => {
                seen = next;
            },
            None => return Err(ParseError),
        }
        i += 1;
    }
    match (seen.auto_unlock, seen.auto_hangup) {
        (Some(u), Some(h)) => Ok(State { auto_unlock: u, auto_hangup: h }),
        _ => Err(ParseError),
    }
}

/// Writes a state file.
pub fn render(st: State) -> (out: Vec<u8>)
    ensures
        out@ == encode_utf8(state_text(st)),
{
    let mut t = "auto_unlock=".to_owned();
    t.append(if st.auto_unlock { "true" } else { "false" });
    t.push('\n');
    let mut second = "auto_hangup=".to_owned();
    second.append(if st.auto_hangup { "true" } else { "false" });
    second.push('\n');
    t.append(second.as_str());
    let mut out: Vec<u8> = Vec::new();
    push_bytes(&mut out, t.as_str());
    out
}

proof fn lemma_flag_line(name: Seq<char>, b: bool, seen: Seen)
    requires
        name == "auto_unlock="@ || name == "auto_hangup="@,
    ensures
        line_step(name + bool_text(b), seen) == Some(
            if name == "auto_unlock="@ {
                Seen { auto_unlock: Some(b), ..seen }
            } else {
                Seen { auto_hangup: Some(b), ..seen }
            },
        ),
        forall|j: int| 0 <= j < (name + bool_text(b)).len() ==> (name + bool_text(b))[j] != '\n',
{
    reveal_strlit("auto_unlock=");
    reveal_strlit("auto_hangup=");
    reveal_strlit("auto_unlock");
    reveal_strlit("auto_hangup");
    reveal_strlit("true");
    reveal_strlit("false");
    reveal_strlit("1");
    reveal_strlit("0");
    let s = name + bool_text(b);
    text::lemma_trim_tight(s);
    text::lemma_find_at(s, '=', 11);
    assert(s.take(11) =~= if name == "auto_unlock="@ {
        "auto_unlock"@
    } else {
        "auto_hangup"@
    });
    assert(s.skip(12) =~= bool_text(b));
    text::lemma_trim_tight(s.take(11));
    text::lemma_trim_tight(bool_text(b));
    assert(text::lower_all(bool_text(b)) =~= bool_text(b));
    assert("auto_unlock"@[5] != "auto_hangup"@[5]);
    assert("true"@.len() != "false"@.len());
}

/// What `render` writes, `parse` reads back.
pub proof fn law_parse_after_render(st: State)
    ensures
        state_value(encode_utf8(state_text(st))) == Some(st),
{
    let t = state_text(st);
    encode_utf8_valid_utf8(t);
    encode_utf8_decode_utf8(t);
    let first = "auto_unlock="@ + bool_text(st.auto_unlock);
    let second = "auto_hangup="@ + bool_text(st.auto_hangup);
    let s0 = Seen { auto_unlock: None, auto_hangup: None };
    let s1 = Seen { auto_unlock: Some(st.auto_unlock), auto_hangup: None };
    let s2 = Seen { auto_unlock: Some(st.auto_unlock), auto_hangup: Some(st.auto_hangup) };
    lemma_flag_line("auto_unlock="@, st.auto_unlock, s0);
    lemma_flag_line("auto_hangup="@, st.auto_hangup, s1);
    reveal_strlit("auto_unlock=");
    reveal_strlit("auto_hangup=");
    assert("auto_unlock="@[5] != "auto_hangup="@[5]);
    let none = Seq::<char>::empty();
    text::lemma_split_at(first, '\n', second.push('\n'));
    text::lemma_split_at(second, '\n', none);
    assert(second.push('\n') + none =~= second.push('\n'));
    assert(text::split(none, '\n') =~= seq![none]);
    let lines = text::split(t, '\n');
    assert(lines =~= seq![first, second, none]);
    assert(lines.drop_first() =~= seq![second, none]);
    assert(lines.drop_first().drop_first() =~= seq![none]);
    assert(lines_step(seq![none], s2) == Some(s2)) by {
        assert(seq![none].drop_first() =~= Seq::<Seq<char>>::empty());
        assert(lines_step(Seq::<Seq<char>>::empty(), s2) == Some(s2));
    }
    assert(lines_step(seq![second, none], s1) == Some(s2));
    assert(lines_step(lines, s0) == Some(s2));
}

/// Whether a line is blank or a comment.
pub open spec fn passed_over(line: Seq<char>) -> bool {
    let s = text::trim(line);
    s.len() == 0 || s[0] == ';' || s[0] == '#'
}

/// Whether a line sets the flag `name`, to whatever value.
pub open spec fn names(line: Seq<char>, name: Seq<char>) -> bool {
    let s = text::trim(line);
    &&& !passed_over(line)
    &&& text::find(s, '=') matches Some(eq)
    &&& text::trim(s.take(eq)) == name
}

/// Whether a line that is neither blank nor a comment has no key, one that is not known, or a
/// value that is no flag.
pub open spec fn refused(line: Seq<char>) -> bool {
    let s = text::trim(line);
    &&& !passed_over(line)
    &&& match text::find(s, '=') {
        None => true,
        Some(eq) => {
            ||| eq == 0
            ||| !names(line, "auto_unlock"@) && !names(line, "auto_hangup"@)
            ||| bool_value(text::trim(s.skip(eq + 1))) is None
        },
    }
}

/// Whether text is made of whole lines.
pub open spec fn whole_lines(t: Seq<char>) -> bool {
    t.len() == 0 || t.last() == '\n'
}

/// The lines of text that is made of whole lines.
spec fn lines_of(t: Seq<char>) -> Seq<Seq<char>> {
    if t.len() == 0 {
        Seq::empty()
    } else {
        text::split(t.drop_last(), '\n')
    }
}

proof fn lemma_lines_apart(a: Seq<char>, rest: Seq<char>)
    requires
        whole_lines(a),
    ensures
        text::split(a + rest, '\n') == lines_of(a) + text::split(rest, '\n'),
{
    if a.len() == 0 {
        assert(a + rest =~= rest);
        assert(lines_of(a) + text::split(rest, '\n') =~= text::split(rest, '\n'));
    } else {
        assert(a =~= a.drop_last().push('\n'));
        text::lemma_split_concat(a.drop_last(), '\n', rest);
    }
}

proof fn lemma_steps(x: Seq<Seq<char>>, y: Seq<Seq<char>>, seen: Seen)
    ensures
        lines_step(x + y, seen) == match lines_step(x, seen) {
            Some(next) => lines_step(y, next),
            None => None,
        },
    decreases x.len(),
{
    if x.len() == 0 {
        assert(x + y =~= y);
    } else {
        assert((x + y).drop_first() =~= x.drop_first() + y);
        if let Some(next) = line_step(x[0], seen) {
            lemma_steps(x.drop_first(), y, next);
        }
    }
}

proof fn lemma_with_line(a: Seq<char>, line: Seq<char>, b: Seq<char>)
    requires
        whole_lines(a),
        forall|j: int| 0 <= j < line.len() ==> line[j] != '\n',
    ensures
        text::split(a + line.push('\n') + b, '\n') == lines_of(a) + (seq![line] + text::split(
            b,
            '\n',
        )),
        text::split(a + b, '\n') == lines_of(a) + text::split(b, '\n'),
        valid_utf8(encode_utf8(a + line.push('\n') + b)),
        decode_utf8(encode_utf8(a + line.push('\n') + b)) == a + line.push('\n') + b,
        valid_utf8(encode_utf8(a + b)),
        decode_utf8(encode_utf8(a + b)) == a + b,
{
    let with = a + line.push('\n') + b;
    assert(with =~= a + (line.push('\n') + b));
    lemma_lines_apart(a, line.push('\n') + b);
    lemma_lines_apart(a, b);
    text::lemma_split_at(line, '\n', b);
    encode_utf8_valid_utf8(with);
    encode_utf8_decode_utf8(with);
    encode_utf8_valid_utf8(a + b);
    encode_utf8_decode_utf8(a + b);
}

/// Blank lines and comments keep the state of a file, wherever they are put in.
pub proof fn law_passed_line_keeps_state(a: Seq<char>, line: Seq<char>, b: Seq<char>)
    requires
        whole_lines(a),
        forall|j: int| 0 <= j < line.len() ==> line[j] != '\n',
        passed_over(line),
    ensures
        state_value(encode_utf8(a + line.push('\n') + b)) == state_value(encode_utf8(a + b)),
{
    lemma_with_line(a, line, b);
    let start = Seen { auto_unlock: None, auto_hangup: None };
    let rest = text::split(b, '\n');
    lemma_steps(lines_of(a), seq![line] + rest, start);
    lemma_steps(lines_of(a), rest, start);
    assert((seq![line] + rest).drop_first() =~= rest);
}

/// A line that is refused makes the whole file of no use, wherever it stands.
pub proof fn law_refused_line_drops_state(a: Seq<char>, line: Seq<char>, b: Seq<char>)
    requires
        whole_lines(a),
        forall|j: int| 0 <= j < line.len() ==> line[j] != '\n',
        refused(line),
    ensures
        state_value(encode_utf8(a + line.push('\n') + b)) is None,
        state_value(encode_utf8(a + line)) is None,
{
    lemma_with_line(a, line, b);
    let start = Seen { auto_unlock: None, auto_hangup: None };
    let rest = text::split(b, '\n');
    lemma_steps(lines_of(a), seq![line] + rest, start);
    encode_utf8_valid_utf8(a + line);
    encode_utf8_decode_utf8(a + line);
    lemma_lines_apart(a, line);
    text::lemma_find_none(line, '\n');
    lemma_steps(lines_of(a), seq![line], start);
}

/// Lines that do not set a flag leave it as it was.
proof fn lemma_flag_untouched(lines: Seq<Seq<char>>, seen: Seen)
    ensures
        (forall|i: int| 0 <= i < lines.len() ==> !names(#[trigger] lines[i], "auto_unlock"@)) ==> (
        lines_step(lines, seen) matches Some(next) ==> next.auto_unlock == seen.auto_unlock),
        (forall|i: int| 0 <= i < lines.len() ==> !names(#[trigger] lines[i], "auto_hangup"@)) ==> (
        lines_step(lines, seen) matches Some(next) ==> next.auto_hangup == seen.auto_hangup),
    decreases lines.len(),
{
    if lines.len() > 0 {
        let rest = lines.drop_first();
        if let Some(next) = line_step(lines[0], seen) {
            lemma_flag_untouched(rest, next);
            assert forall|i: int| 0 <= i < rest.len() implies #[trigger] rest[i] == lines[i + 1] by {}
        }
        reveal_strlit("auto_unlock");
        reveal_strlit("auto_hangup");
        assert("auto_unlock"@[5] != "auto_hangup"@[5]);
    }
}

/// Both flags are needed: a file without a line for one of them holds no state.
pub proof fn law_both_flags_needed(t: Seq<char>, name: Seq<char>)
    requires
        name == "auto_unlock"@ || name == "auto_hangup"@,
        forall|i: int|
            0 <= i < text::split(t, '\n').len() ==> !names(
                #[trigger] text::split(t, '\n')[i],
                name,
            ),
    ensures
        state_value(encode_utf8(t)) is None,
{
    encode_utf8_valid_utf8(t);
    encode_utf8_decode_utf8(t);
    lemma_flag_untouched(
        text::split(t, '\n'),
        (Seen { auto_unlock: None, auto_hangup: None }),
    );
}

/// Either line of a file alone holds no state.
pub proof fn law_half_a_file_is_refused(st: State)
    ensures
        state_value(encode_utf8(("auto_unlock="@ + bool_text(st.auto_unlock)).push('\n'))) is None,
        state_value(encode_utf8(("auto_hangup="@ + bool_text(st.auto_hangup)).push('\n'))) is None,
{
    reveal_strlit("auto_unlock=");
    reveal_strlit("auto_hangup=");
    assert("auto_unlock="@[5] != "auto_hangup="@[5]);
    lemma_one_line("auto_unlock="@, st.auto_unlock);
    lemma_one_line("auto_hangup="@, st.auto_hangup);
}

proof fn lemma_one_line(name: Seq<char>, b: bool)
    requires
        name == "auto_unlock="@ || name == "auto_hangup="@,
        "auto_unlock="@ != "auto_hangup="@,
    ensures
        state_value(encode_utf8((name + bool_text(b)).push('\n'))) is None,
{
    let line = name + bool_text(b);
    let none = Seq::<char>::empty();
    let start = Seen { auto_unlock: None, auto_hangup: None };
    lemma_flag_line(name, b, start);
    lemma_with_line(none, line, none);
    assert(none + line.push('\n') + none =~= line.push('\n'));
    assert(text::split(none, '\n') =~= seq![none]);
    let lines = text::split(line.push('\n'), '\n');
    assert(lines =~= seq![line, none]);
    assert(lines.drop_first() =~= seq![none]);
    assert(seq![none].drop_first() =~= Seq::<Seq<char>>::empty());
    let next = line_step(line, start)->0;
    assert(lines_step(Seq::<Seq<char>>::empty(), next) == Some(next));
    assert(lines_step(seq![none], next) == Some(next));
}

// ---------------------------------------------------------------------------
// Writing the file
// ---------------------------------------------------------------------------

/// Appended to the path of the state file for the copy that is renamed over it.
pub const TEMP_SUFFIX: &'static str = ".tmp";

/// Path of the temporary copy, in the directory of the file itself.
pub fn temp_path(path: &str) -> (out: String)
    ensures
        out@ == path@ + ".tmp"@,
{
    let mut out = path.to_owned();
    out.append(TEMP_SUFFIX);
    out
}

/// What to write for the flags `cur` where `last` were the last to be written: nothing if they
/// are the same, else the contents of the file.
pub open spec fn to_write(last: Option<State>, cur: State) -> Option<Seq<u8>> {
    if last == Some(cur) {
        None
    } else {
        Some(encode_utf8(state_text(cur)))
    }
}

/// Once flags were written they are not written again, and what is written for any others reads
/// back as those.
pub proof fn law_writes_are_needed(last: Option<State>, cur: State)
    ensures
        to_write(Some(cur), cur) is None,
        to_write(last, cur) matches Some(raw) ==> state_value(raw) == Some(cur),
        to_write(last, cur) is None ==> last == Some(cur),
{
    law_parse_after_render(cur);
}

/// Decides which flag values go to the file: a value that is already there is not written
/// again, any other is.
pub struct Persister {
    saved: Option<State>,
}

impl Persister {
    /// The value last written, if one was.
    pub closed spec fn last(&self) -> Option<State> {
        self.saved
    }

    /// Nothing has been written yet.
    pub fn new() -> (p: Self)
        ensures
            p.last() is None,
    {
        Persister { saved: None }
    }

    /// What to write for the current flags: nothing if they were the last to be written, else
    /// the contents of the file. `saved` says that the write succeeded.
    pub fn persist(&self, cur: State) -> (w: Option<Vec<u8>>)
        ensures
            match w {
                Some(bytes) => to_write(self.last(), cur) == Some(bytes@),
                None => to_write(self.last(), cur) is None,
            },
    {
        match self.saved {
            Some(last) => if last == cur {
                None
            } else {
                Some(render(cur))
            },
            None => Some(render(cur)),
        }
    }

    /// Notes that `cur` was written. A write that failed is not noted, so the same value is
    /// written at the next chance.
    pub fn saved(&mut self, cur: State)
        ensures
            final(self).last() == Some(cur),
    {
        self.saved = Some(cur);
    }
}

/// The line to log when a write failed.
pub fn persist_failure(error: &str) -> (out: String)
    ensures
        out@
            == "automation.state persist failed (best-effort, flag still applied in-memory): "@
            + error@,
{
    let mut out =
        "automation.state persist failed (best-effort, flag still applied in-memory): ".to_owned();
    out.append(error);
    out
}

} // verus!
