//! Header fields and the canonical form of their names.

use vstd::prelude::*;
use vstd::slice::slice_subrange;
use vstd::string::*;
use vstd::utf8::*;

use crate::text;
use crate::text::{chars_of, find_char, lower_char, sorts_before, str_eq, string_of};

verus! {

/// What `char::to_uppercase` yields for a character.
pub uninterp spec fn upper_text(c: char) -> Seq<char>;

/// What `char::to_lowercase` yields for a character.
pub uninterp spec fn lower_text(c: char) -> Seq<char>;

/// The characters that `char::to_uppercase` yields; they depend on the character alone.
#[verifier::external_body]
fn uppercase(c: char) -> (out: Vec<char>)
    ensures
        out@ == upper_text(c),
{
    c.to_uppercase().collect()
}

/// The characters that `char::to_lowercase` yields; they depend on the character alone.
#[verifier::external_body]
fn lowercase(c: char) -> (out: Vec<char>)
    ensures
        out@ == lower_text(c),
{
    c.to_lowercase().collect()
}

/// A character in upper case.
pub open spec fn upper_of(c: char) -> Seq<char> {
    if c as u32 <= 127 {
        seq![
            if 'a' <= c && c <= 'z' {
                ((c as u8) - 32) as char
            } else {
                c
            },
        ]
    } else {
        upper_text(c)
    }
}

/// A character in lower case.
pub open spec fn lower_of(c: char) -> Seq<char> {
    if c as u32 <= 127 {
        seq![text::lower(c)]
    } else {
        lower_text(c)
    }
}

fn push_upper(out: &mut String, c: char)
    ensures
        final(out)@ == old(out)@ + upper_of(c),
{
    if c as u32 <= 127 {
        out.push(if 'a' <= c && c <= 'z' { ((c as u8) - 32) as char } else { c });
    } else {
        append_chars(out, uppercase(c).as_slice());
    }
    assert(out@ =~= old(out)@ + upper_of(c));
}

fn push_lower(out: &mut String, c: char)
    ensures
        final(out)@ == old(out)@ + lower_of(c),
{
    if c as u32 <= 127 {
        out.push(lower_char(c));
    } else {
        append_chars(out, lowercase(c).as_slice());
    }
    assert(out@ =~= old(out)@ + lower_of(c));
}

/// The characters in lower case, one after the other.
pub open spec fn lower_texts(s: Seq<char>) -> Seq<char>
    decreases s.len(),
{
    if s.len() == 0 {
        Seq::empty()
    } else {
        lower_texts(s.drop_last()) + lower_of(s.last())
    }
}

/// A word with its first letter in upper case and the others in lower case.
pub open spec fn capitalized(s: Seq<char>) -> Seq<char> {
    if s.len() == 0 {
        s
    } else {
        upper_of(s[0]) + lower_texts(s.drop_first())
    }
}

/// The words between the hyphens of a name, each capitalized.
pub open spec fn canonical(s: Seq<char>) -> Seq<char>
    decreases s.len(),
{
    match text::find(s, '-') {
        None => capitalized(s),
        Some(i) => if 0 <= i < s.len() {
            capitalized(s.take(i)).push('-') + canonical(s.skip(i + 1))
        } else {
            capitalized(s)
        },
    }
}

fn append_chars(out: &mut String, cs: &[char])
    ensures
        final(out)@ == old(out)@ + cs@,
{
    out.append(string_of(cs).as_str());
}

fn push_capitalized(out: &mut String, cs: &[char])
    ensures
        final(out)@ == old(out)@ + capitalized(cs@),
{
    if cs.len() == 0 {
        assert(out@ =~= old(out)@ + cs@);
        return;
    }
    push_upper(out, cs[0]);
    let ghost rest = cs@.drop_first();
    let ghost head = old(out)@ + upper_of(cs@[0]);
    let mut i: usize = 1;
    assert(out@ =~= head + lower_texts(rest.take(0)));
    while i < cs.len()
        invariant
            1 <= i <= cs.len(),
            rest == cs@.drop_first(),
            out@ == head + lower_texts(rest.take(i - 1)),
        decreases cs.len() - i,
    {
        assert(rest.take(i as int).drop_last() =~= rest.take(i - 1));
        assert(rest.take(i as int).last() == cs@[i as int]);
        push_lower(out, cs[i]);
        i += 1;
        assert(out@ =~= head + lower_texts(rest.take(i - 1)));
    }
    assert(rest.take(i - 1) =~= rest);
    assert(out@ =~= old(out)@ + capitalized(cs@));
}

/// The canonical form of a header name, such as `Content-Type`.
pub fn canonical_mime_header_key(key: &str) -> (out: String)
    ensures
        out@ == canonical(key@),
{
    let cs = chars_of(key);
    let mut out = String::new();
    let mut pos: usize = 0;
    assert(cs@.skip(0) =~= cs@);
    assert(out@ + canonical(cs@) =~= canonical(key@));
    loop
        invariant
            pos <= cs.len(),
            out@ + canonical(cs@.skip(pos as int)) == canonical(key@),
        decreases cs.len() - pos,
    {
        let rest = slice_subrange(cs.as_slice(), pos, cs.len());
        assert(rest@ =~= cs@.skip(pos as int));
        let ghost before = out@;
        match find_char(rest, '-') {
            None => {
                push_capitalized(&mut out, rest);
                return out;
            },
            Some(i) => {
                let word = slice_subrange(rest, 0, i);
                assert(word@ =~= rest@.take(i as int));
                push_capitalized(&mut out, word);
                out.push('-');
                assert(rest@.skip(i + 1) =~= cs@.skip(pos + i + 1));
                assert(out@ + canonical(cs@.skip(pos + i + 1)) =~= before + (capitalized(
                    word@,
                ).push('-') + canonical(rest@.skip(i + 1))));
                pos = pos + i + 1;
            },
        }
    }
}

/// A field: its name and its values.
pub type FieldView = (Seq<char>, Seq<Seq<char>>);

/// The fields as a map from name to values; of two entries with one name the first counts.
pub open spec fn map_of(es: Seq<FieldView>) -> Map<Seq<char>, Seq<Seq<char>>>
    decreases es.len(),
{
    if es.len() == 0 {
        Map::empty()
    } else {
        map_of(es.drop_first()).insert(es[0].0, es[0].1)
    }
}

/// The names ascend, so none occurs twice.
pub open spec fn names_ascend(es: Seq<FieldView>) -> bool {
    forall|i: int, j: int| 0 <= i < j < es.len() ==> text::text_before(
        (#[trigger] es[i]).0,
        (#[trigger] es[j]).0,
    )
}

/// The fields of a map in the order of their names.
pub open spec fn listing(m: Map<Seq<char>, Seq<Seq<char>>>) -> Seq<FieldView> {
    choose|es: Seq<FieldView>| names_ascend(es) && map_of(es) == m
}

/// Stored fields with their texts as sequences.
pub open spec fn entry_views(v: Seq<(String, Vec<String>)>) -> Seq<FieldView> {
    Seq::new(v.len(), |i: int| (v[i].0@, text::string_views(v[i].1@)))
}

proof fn lemma_map_at(es: Seq<FieldView>, i: int)
    requires
        0 <= i < es.len(),
        forall|j: int| 0 <= j < i ==> (#[trigger] es[j]).0 != es[i].0,
    ensures
        map_of(es).dom().contains(es[i].0),
        map_of(es)[es[i].0] == es[i].1,
    decreases es.len(),
{
    if i > 0 {
        let t = es.drop_first();
        assert(t[i - 1] == es[i]);
        assert forall|j: int| 0 <= j < i - 1 implies (#[trigger] t[j]).0 != t[i - 1].0 by {
            assert(t[j] == es[j + 1]);
        }
        lemma_map_at(t, i - 1);
        assert(es[0].0 != es[i].0);
    }
}

pub proof fn lemma_map_absent(es: Seq<FieldView>, k: Seq<char>)
    requires
        forall|j: int| 0 <= j < es.len() ==> (#[trigger] es[j]).0 != k,
    ensures
        !map_of(es).dom().contains(k),
    decreases es.len(),
{
    if es.len() > 0 {
        let t = es.drop_first();
        assert forall|j: int| 0 <= j < t.len() implies (#[trigger] t[j]).0 != k by {
            assert(t[j] == es[j + 1]);
        }
        lemma_map_absent(t, k);
        assert(es[0].0 != k);
    }
}

pub proof fn lemma_map_insert(es: Seq<FieldView>, i: int, e: FieldView)
    requires
        0 <= i <= es.len(),
        forall|j: int| 0 <= j < es.len() ==> (#[trigger] es[j]).0 != e.0,
    ensures
        map_of(es.insert(i, e)) == map_of(es).insert(e.0, e.1),
    decreases i,
{
    let u = es.insert(i, e);
    if i == 0 {
        assert(u.drop_first() =~= es);
    } else {
        let t = es.drop_first();
        assert forall|j: int| 0 <= j < t.len() implies (#[trigger] t[j]).0 != e.0 by {
            assert(t[j] == es[j + 1]);
        }
        lemma_map_insert(t, i - 1, e);
        assert(u.drop_first() =~= t.insert(i - 1, e));
        assert(es[0].0 != e.0);
        assert(u[0] == es[0]);
    }
    assert(map_of(u) =~= map_of(es).insert(e.0, e.1));
}

proof fn lemma_map_remove(es: Seq<FieldView>, i: int)
    requires
        names_ascend(es),
        0 <= i < es.len(),
    ensures
        map_of(es.remove(i)) == map_of(es).remove(es[i].0),
{
    let u = es.remove(i);
    assert forall|j: int| 0 <= j < u.len() implies (#[trigger] u[j]).0 != es[i].0 by {
        if j < i {
            text::lemma_before_total(es[j].0, es[i].0);
            assert(u[j] == es[j]);
        } else {
            text::lemma_before_total(es[i].0, es[j + 1].0);
            assert(u[j] == es[j + 1]);
        }
    }
    lemma_map_insert(u, i, es[i]);
    lemma_map_absent(u, es[i].0);
    assert(u.insert(i, es[i]) =~= es);
    assert(map_of(u) =~= map_of(es).remove(es[i].0));
}

proof fn lemma_map_has(es: Seq<FieldView>, k: Seq<char>)
    requires
        map_of(es).dom().contains(k),
    ensures
        exists|i: int| 0 <= i < es.len() && (#[trigger] es[i]).0 == k,
{
    if !(exists|i: int| 0 <= i < es.len() && (#[trigger] es[i]).0 == k) {
        lemma_map_absent(es, k);
    }
}

/// A map has one listing only.
pub proof fn lemma_listing(es: Seq<FieldView>)
    requires
        names_ascend(es),
    ensures
        listing(map_of(es)) == es,
{
    lemma_listing_unique(listing(map_of(es)), es);
}

proof fn lemma_listing_unique(a: Seq<FieldView>, b: Seq<FieldView>)
    requires
        names_ascend(a),
        names_ascend(b),
        map_of(a) == map_of(b),
    ensures
        a == b,
    decreases a.len(),
{
    if a.len() == 0 {
        if b.len() > 0 {
            lemma_map_at(b, 0);
        }
        assert(a =~= b);
    } else {
        lemma_map_at(a, 0);
        lemma_map_has(b, a[0].0);
        lemma_map_at(b, 0);
        lemma_map_has(a, b[0].0);
        let j = choose|j: int| 0 <= j < b.len() && (#[trigger] b[j]).0 == a[0].0;
        let i = choose|i: int| 0 <= i < a.len() && (#[trigger] a[i]).0 == b[0].0;
        if a[0].0 != b[0].0 {
            assert(text::text_before(b[0].0, b[j].0));
            assert(text::text_before(a[0].0, a[i].0));
            text::lemma_before_total(a[0].0, b[0].0);
        }
        assert(a[0] == b[0]);
        lemma_map_remove(a, 0);
        lemma_map_remove(b, 0);
        assert(a.remove(0) =~= a.drop_first());
        assert(b.remove(0) =~= b.drop_first());
        let t = a.drop_first();
        let u = b.drop_first();
        assert forall|x: int, y: int| 0 <= x < y < t.len() implies text::text_before(
            (#[trigger] t[x]).0,
            (#[trigger] t[y]).0,
        ) by {
            assert(t[x] == a[x + 1] && t[y] == a[y + 1]);
        }
        assert forall|x: int, y: int| 0 <= x < y < u.len() implies text::text_before(
            (#[trigger] u[x]).0,
            (#[trigger] u[y]).0,
        ) by {
            assert(u[x] == b[x + 1] && u[y] == b[y + 1]);
        }
        lemma_listing_unique(t, u);
        assert(a =~= seq![a[0]] + t);
        assert(b =~= seq![b[0]] + u);
    }
}

/// Header fields: for each canonical name its values.
#[derive(Debug)]
pub struct Header {
    entries: Vec<(String, Vec<String>)>,
}

impl View for Header {
    type V = Map<Seq<char>, Seq<Seq<char>>>;

    closed spec fn view(&self) -> Map<Seq<char>, Seq<Seq<char>>> {
        map_of(entry_views(self.entries@))
    }
}

impl Default for Header {
    fn default() -> (h: Self)
        ensures
            h@ == Map::<Seq<char>, Seq<Seq<char>>>::empty(),
    {
        Header::new()
    }
}

fn copy_fields(v: &Vec<(String, Vec<String>)>) -> (out: Vec<(String, Vec<String>)>)
    ensures
        entry_views(out@) == entry_views(v@),
{
    let mut out: Vec<(String, Vec<String>)> = Vec::new();
    let mut i: usize = 0;
    while i < v.len()
        invariant
            i <= v.len(),
            out@.len() == i,
            forall|j: int|
                0 <= j < i ==> (#[trigger] out@[j]).0@ == v@[j].0@ && text::string_views(out@[j].1@)
                    == text::string_views(v@[j].1@),
        decreases v.len() - i,
    {
        out.push((v[i].0.clone(), text::copy_strings(&v[i].1)));
        i += 1;
    }
    assert(entry_views(out@) =~= entry_views(v@));
    out
}

impl Header {
    #[verifier::type_invariant]
    spec fn ascending(&self) -> bool {
        names_ascend(entry_views(self.entries@))
    }

    /// No fields.
    pub fn new() -> (h: Header)
        ensures
            h@ == Map::<Seq<char>, Seq<Seq<char>>>::empty(),
    {
        Header { entries: Vec::new() }
    }

    /// A copy with the same fields.
    pub fn copy(&self) -> (h: Header)
        ensures
            h@ == self@,
    {
        proof {
            use_type_invariant(self);
        }
        Header { entries: copy_fields(&self.entries) }
    }

    /// Number of the fields whose names sort before `name`, and whether the next is `name`.
    fn position(&self, name: &str) -> (r: (usize, bool))
        ensures
            r.0 <= self.entries@.len(),
            forall|j: int|
                0 <= j < r.0 ==> text::text_before((#[trigger] self.entries@[j]).0@, name@),
            r.1 ==> r.0 < self.entries@.len() && self.entries@[r.0 as int].0@ == name@,
            !r.1 ==> forall|j: int|
                r.0 <= j < self.entries@.len() ==> text::text_before(
                    name@,
                    (#[trigger] self.entries@[j]).0@,
                ),
    {
        proof {
            use_type_invariant(self);
        }
        let ghost es = entry_views(self.entries@);
        let mut i: usize = 0;
        while i < self.entries.len() && sorts_before(self.entries[i].0.as_str(), name)
            invariant
                i <= self.entries.len(),
                forall|j: int|
                    0 <= j < i ==> text::text_before((#[trigger] self.entries@[j]).0@, name@),
            decreases self.entries.len() - i,
        {
            i += 1;
        }
        if i < self.entries.len() && str_eq(self.entries[i].0.as_str(), name) {
            return (i, true);
        }
        proof {
            if i < self.entries@.len() {
                text::lemma_before_total(self.entries@[i as int].0@, name@);
                assert forall|j: int| i <= j < self.entries@.len() implies text::text_before(
                    name@,
                    (#[trigger] self.entries@[j]).0@,
                ) by {
                    if j > i {
                        assert(es[i as int].0 == self.entries@[i as int].0@);
                        assert(es[j].0 == self.entries@[j].0@);
                        text::lemma_before_transitive(name@, es[i as int].0, es[j].0);
                    }
                }
            }
        }
        (i, false)
    }

    /// The values of the field of that canonical name.
    fn lookup(&self, name: &str) -> (r: Option<&Vec<String>>)
        ensures
            match r {
                Some(v) => self@.dom().contains(name@) && self@[name@] == text::string_views(v@),
                None => !self@.dom().contains(name@),
            },
    {
        let (i, found) = self.position(name);
        let ghost es = entry_views(self.entries@);
        proof {
            assert forall|j: int| 0 <= j < i implies (#[trigger] es[j]).0 != name@ by {
                assert(text::text_before(self.entries@[j].0@, name@));
                text::lemma_before_total(es[j].0, name@);
            }
        }
        if found {
            proof {
                assert(es[i as int].0 == name@);
                lemma_map_at(es, i as int);
            }
            Some(&self.entries[i].1)
        } else {
            proof {
                assert forall|j: int| i <= j < es.len() implies (#[trigger] es[j]).0 != name@ by {
                    assert(text::text_before(name@, self.entries@[j].0@));
                    text::lemma_before_total(name@, es[j].0);
                }
                lemma_map_absent(es, name@);
            }
            None
        }
    }

    /// Gives the field of that canonical name the values.
    fn put(&mut self, name: String, values: Vec<String>)
        ensures
            final(self)@ == old(self)@.insert(name@, text::string_views(values@)),
    {
        proof {
            use_type_invariant(&*self);
        }
        let ghost es = entry_views(self.entries@);
        let ghost e = (name@, text::string_views(values@));
        let (at, found) = self.position(name.as_str());
        let mut out = copy_fields(&self.entries);
        let ghost i = at as int;
        assert(entry_views(out@) == es);
        assert(out@.len() == es.len());
        proof {
            assert forall|j: int| 0 <= j < i implies text::text_before(
                (#[trigger] es[j]).0,
                name@,
            ) by {
                assert(text::text_before(self.entries@[j].0@, name@));
            }
        }
        if found {
            out.remove(at);
        }
        let ghost rest = if found {
            es.remove(i)
        } else {
            es
        };
        assert(entry_views(out@) =~= rest);
        proof {
            if found {
                assert(es[i].0 == name@);
                lemma_map_remove(es, i);
            }
            assert forall|j: int| i <= j < rest.len() implies text::text_before(
                name@,
                (#[trigger] rest[j]).0,
            ) by {
                if found {
                    assert(rest[j] == es[j + 1]);
                    assert(text::text_before(es[i].0, es[j + 1].0));
                } else {
                    assert(text::text_before(name@, self.entries@[j].0@));
                }
            }
            assert forall|j: int| 0 <= j < i implies text::text_before(
                (#[trigger] rest[j]).0,
                name@,
            ) by {
                assert(rest[j] == es[j]);
            }
            assert forall|j: int| 0 <= j < rest.len() implies (#[trigger] rest[j]).0 != name@ by {
                text::lemma_before_total(rest[j].0, name@);
            }
            lemma_map_insert(rest, i, e);
            let u = rest.insert(i, e);
            assert forall|a: int, b: int| 0 <= a < b < u.len() implies text::text_before(
                (#[trigger] u[a]).0,
                (#[trigger] u[b]).0,
            ) by {
                let ra = if a < i { a } else { a - 1 };
                let rb = if b < i { b } else { b - 1 };
                if a != i && b != i {
                    let ea = if found && ra >= i { ra + 1 } else { ra };
                    let eb = if found && rb >= i { rb + 1 } else { rb };
                    assert(u[a] == rest[ra] && u[b] == rest[rb]);
                    assert(rest[ra] == es[ea] && rest[rb] == es[eb]);
                } else if a == i {
                    assert(u[b] == rest[rb]);
                } else {
                    assert(u[a] == rest[ra]);
                }
            }
        }
        out.insert(at, (name, values));
        assert(entry_views(out@) =~= rest.insert(i, e));
        *self = Header { entries: out };
        assert(self@ =~= old(self)@.insert(name@, text::string_views(values@)));
    }

    /// The first value of a field, whatever the letter case of the name given.
    pub fn get(&self, key: &str) -> (r: Option<&str>)
        ensures
            text_view(r) == field(self@, key@),
    {
        match self.lookup(canonical_mime_header_key(key).as_str()) {
            Some(v) => if v.len() > 0 {
                Some(v[0].as_str())
            } else {
                None
            },
            None => None,
        }
    }

    /// Gives a field one value in place of those it has.
    pub fn set(&mut self, key: &str, value: &str)
        ensures
            final(self)@ == old(self)@.insert(canonical(key@), seq![value@]),
    {
        let mut values: Vec<String> = Vec::new();
        values.push(value.to_owned());
        assert(text::string_views(values@) =~= seq![value@]);
        self.put(canonical_mime_header_key(key), values);
    }

    /// Adds a value to a field.
    pub fn add(&mut self, key: &str, value: &str)
        ensures
            final(self)@ == with_value(old(self)@, key@, value@),
    {
        let name = canonical_mime_header_key(key);
        let mut values = match self.lookup(name.as_str()) {
            Some(v) => text::copy_strings(v),
            None => Vec::new(),
        };
        let ghost earlier = if self@.dom().contains(name@) {
            self@[name@]
        } else {
            Seq::empty()
        };
        assert(text::string_views(values@) =~= earlier);
        values.push(value.to_owned());
        assert(text::string_views(values@) =~= earlier.push(value@));
        self.put(name, values);
    }

    /// Removes a field.
    pub fn del(&mut self, key: &str)
        ensures
            final(self)@ == old(self)@.remove(canonical(key@)),
    {
        let name = canonical_mime_header_key(key);
        proof {
            use_type_invariant(&*self);
        }
        let ghost es = entry_views(self.entries@);
        let (i, found) = self.position(name.as_str());
        if found {
            let mut out = copy_fields(&self.entries);
            assert(out@.len() == entry_views(out@).len());
            out.remove(i);
            let ghost rest = es.remove(i as int);
            assert(entry_views(out@) =~= rest);
            proof {
                assert(es[i as int].0 == name@);
                lemma_map_remove(es, i as int);
                assert forall|a: int, b: int| 0 <= a < b < rest.len() implies text::text_before(
                    (#[trigger] rest[a]).0,
                    (#[trigger] rest[b]).0,
                ) by {
                    let ea = if a >= i { a + 1 } else { a };
                    let eb = if b >= i { b + 1 } else { b };
                    assert(rest[a] == es[ea] && rest[b] == es[eb]);
                }
            }
            *self = Header { entries: out };
        } else {
            proof {
                assert forall|j: int| 0 <= j < es.len() implies (#[trigger] es[j]).0 != name@ by {
                    if j < i {
                        assert(text::text_before(self.entries@[j].0@, name@));
                    } else {
                        assert(text::text_before(name@, self.entries@[j].0@));
                    }
                    text::lemma_before_total(es[j].0, name@);
                }
                lemma_map_absent(es, name@);
            }
            assert(self@ =~= old(self)@.remove(canonical(key@)));
        }
    }

    /// All values of a field.
    pub fn values(&self, key: &str) -> (r: Option<&[String]>)
        ensures
            match r {
                Some(v) => self@.dom().contains(canonical(key@)) && self@[canonical(key@)]
                    == text::string_views(v@),
                None => !self@.dom().contains(canonical(key@)),
            },
    {
        match self.lookup(canonical_mime_header_key(key).as_str()) {
            Some(v) => Some(v.as_slice()),
            None => None,
        }
    }

    /// The fields in the order of their names.
    pub fn iter(&self) -> (r: &[(String, Vec<String>)])
        ensures
            entry_views(r@) == listing(self@),
    {
        proof {
            use_type_invariant(self);
            lemma_listing(entry_views(self.entries@));
        }
        self.entries.as_slice()
    }
}

/// The first value of a field.
pub open spec fn field(h: Map<Seq<char>, Seq<Seq<char>>>, key: Seq<char>) -> Option<Seq<char>> {
    if h.dom().contains(canonical(key)) && h[canonical(key)].len() > 0 {
        Some(h[canonical(key)][0])
    } else {
        None
    }
}

/// The fields with one more value for a field.
pub open spec fn with_value(
    h: Map<Seq<char>, Seq<Seq<char>>>,
    key: Seq<char>,
    value: Seq<char>,
) -> Map<Seq<char>, Seq<Seq<char>>> {
    h.insert(
        canonical(key),
        (if h.dom().contains(canonical(key)) {
            h[canonical(key)]
        } else {
            Seq::empty()
        }).push(value),
    )
}

/// An optional text by its characters.
pub open spec fn text_view(r: Option<&str>) -> Option<Seq<char>> {
    match r {
        Some(s) => Some(s@),
        None => None,
    }
}

// ---------------------------------------------------------------------------
// Names in ASCII
// ---------------------------------------------------------------------------

/// The canonical form of a name in ASCII, character by character: the first letter of each word in
/// upper case, the others in lower case.
pub open spec fn ascii_canonical(s: Seq<char>) -> Seq<char> {
    Seq::new(
        s.len(),
        |i: int|
            if i == 0 || s[i - 1] == '-' {
                upper_of(s[i])[0]
            } else {
                text::lower(s[i])
            },
    )
}

proof fn lemma_lower_ascii(s: Seq<char>)
    requires
        is_ascii_chars(s),
    ensures
        lower_texts(s) == s.map_values(|c: char| text::lower(c)),
    decreases s.len(),
{
    if s.len() > 0 {
        let t = s.drop_last();
        assert forall|i| 0 <= i < t.len() implies '\0' <= #[trigger] t[i] <= '\u{7f}' by {
            assert(t[i] == s[i]);
        }
        lemma_lower_ascii(t);
        assert('\0' <= s[s.len() - 1] <= '\u{7f}');
        assert(lower_texts(s) =~= s.map_values(|c: char| text::lower(c)));
    } else {
        assert(lower_texts(s) =~= s.map_values(|c: char| text::lower(c)));
    }
}

/// The canonical form of a name in ASCII.
pub proof fn lemma_canonical_ascii(s: Seq<char>)
    requires
        is_ascii_chars(s),
    ensures
        canonical(s) == ascii_canonical(s),
    decreases s.len(),
{
    text::lemma_find(s, '-');
    match text::find(s, '-') {
        None => {
            lemma_capitalized_ascii(s);
            assert(canonical(s) =~= ascii_canonical(s));
        },
        Some(i) => {
            let (a, b) = (s.take(i), s.skip(i + 1));
            assert(is_ascii_chars(a));
            assert(is_ascii_chars(b)) by {
                assert forall|j| 0 <= j < b.len() implies '\0' <= #[trigger] b[j] <= '\u{7f}' by {
                    assert(b[j] == s[i + 1 + j]);
                }
            }
            lemma_capitalized_ascii(a);
            lemma_canonical_ascii(b);
            assert(s[i] == '-');
            assert(ascii_canonical(s) =~= ascii_canonical(a).push('-') + ascii_canonical(b)) by {
                assert forall|j: int| 0 <= j < s.len() implies ascii_canonical(s)[j] == (
                ascii_canonical(a).push('-') + ascii_canonical(b))[j] by {
                    if j > i + 1 {
                        assert(b[j - i - 1] == s[j]);
                        assert(b[j - i - 2] == s[j - 1]);
                    } else if j == i + 1 {
                        assert(b[0] == s[j]);
                    } else if j < i {
                        assert(a[j] == s[j]);
                    }
                }
            }
        },
    }
}

proof fn lemma_capitalized_ascii(s: Seq<char>)
    requires
        is_ascii_chars(s),
        forall|i: int| 0 <= i < s.len() ==> #[trigger] s[i] != '-',
    ensures
        capitalized(s) == ascii_canonical(s),
{
    if s.len() > 0 {
        let t = s.drop_first();
        assert forall|i| 0 <= i < t.len() implies '\0' <= #[trigger] t[i] <= '\u{7f}' by {
            assert(t[i] == s[i + 1]);
        }
        lemma_lower_ascii(t);
        assert('\0' <= s[0] <= '\u{7f}');
        assert forall|i: int| 1 <= i < s.len() implies capitalized(s)[i] == ascii_canonical(s)[i] by {
            assert(t[i - 1] == s[i]);
            assert(s[i - 1] != '-');
        }
        assert(capitalized(s) =~= ascii_canonical(s));
    } else {
        assert(capitalized(s) =~= ascii_canonical(s));
    }
}

/// The canonical form of a name in ASCII is in canonical form itself.
pub proof fn law_canonical_once(s: Seq<char>)
    requires
        is_ascii_chars(s),
    ensures
        canonical(canonical(s)) == canonical(s),
{
    lemma_canonical_ascii(s);
    let c = canonical(s);
    assert forall|i: int| 0 <= i < s.len() implies '\0' <= #[trigger] c[i] <= '\u{7f}' && (c[i]
        == '-' <==> s[i] == '-') by {
        assert('\0' <= s[i] <= '\u{7f}');
    }
    lemma_canonical_ascii(c);
    assert forall|i: int| 0 <= i < s.len() implies ascii_canonical(c)[i] == c[i] by {
        assert('\0' <= s[i] <= '\u{7f}');
        if i > 0 {
            assert(c[i - 1] == '-' <==> s[i - 1] == '-');
        }
    }
    assert(canonical(c) =~= c);
}

/// The names of the fields that are set on every message.
pub proof fn lemma_names()
    ensures
        canonical("Host"@) == "Host"@,
        canonical("Connection"@) == "Connection"@,
        canonical("Content-Length"@) == "Content-Length"@,
        canonical("Transfer-Encoding"@) == "Transfer-Encoding"@,
        canonical("Upgrade"@) == "Upgrade"@,
        canonical("Content-Type"@) == "Content-Type"@,
        "Host"@.len() == 4,
        "Connection"@.len() == 10,
        "Content-Length"@.len() == 14,
        "Transfer-Encoding"@.len() == 17,
        "Upgrade"@.len() == 7,
        "Content-Type"@.len() == 12,
{
    assert(canonical("Host"@) == "Host"@ && "Host"@.len() == 4) by {
        reveal_strlit("Host");
        lemma_canonical_ascii("Host"@);
        assert(ascii_canonical("Host"@) =~= "Host"@);
    }
    assert(canonical("Connection"@) == "Connection"@ && "Connection"@.len() == 10) by {
        reveal_strlit("Connection");
        lemma_canonical_ascii("Connection"@);
        assert(ascii_canonical("Connection"@) =~= "Connection"@);
    }
    assert(canonical("Content-Length"@) == "Content-Length"@ && "Content-Length"@.len() == 14) by {
        reveal_strlit("Content-Length");
        lemma_canonical_ascii("Content-Length"@);
        assert(ascii_canonical("Content-Length"@) =~= "Content-Length"@);
    }
    assert(canonical("Transfer-Encoding"@) == "Transfer-Encoding"@ && "Transfer-Encoding"@.len() == 17) by {
        reveal_strlit("Transfer-Encoding");
        lemma_canonical_ascii("Transfer-Encoding"@);
        assert(ascii_canonical("Transfer-Encoding"@) =~= "Transfer-Encoding"@);
    }
    assert(canonical("Upgrade"@) == "Upgrade"@ && "Upgrade"@.len() == 7) by {
        reveal_strlit("Upgrade");
        lemma_canonical_ascii("Upgrade"@);
        assert(ascii_canonical("Upgrade"@) =~= "Upgrade"@);
    }
    assert(canonical("Content-Type"@) == "Content-Type"@ && "Content-Type"@.len() == 12) by {
        reveal_strlit("Content-Type");
        lemma_canonical_ascii("Content-Type"@);
        assert(ascii_canonical("Content-Type"@) =~= "Content-Type"@);
    }
}

} // verus!
