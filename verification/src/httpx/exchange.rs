//! What one side of a connection writes, the other side reads.

use vstd::prelude::*;
use vstd::string::*;
use vstd::utf8::*;

use super::client;
use super::header;
use super::header::FieldView;
use super::parse;
use super::parse::{BodyProgress, FieldsView, LineView, RequestProgress, ResponseFault,
    ResponseProgress, MAX_BODY_BYTES, MAX_CHUNK_LINE_BYTES, MAX_HEADER_BYTES, MAX_HEADER_COUNT,
    MAX_REQUEST_LINE_BYTES};
use super::response;
use super::{Reply, RequestView, Sent, METHOD_GET, METHOD_POST};
use crate::text;

verus! {

// ---------------------------------------------------------------------------
// Lines
// ---------------------------------------------------------------------------

proof fn lemma_line_end()
    ensures
        encode_utf8("\r\n"@) == seq![13u8, 10u8],
{
    reveal_strlit("\r\n");
    is_ascii_chars_encode_utf8("\r\n"@);
    assert(encode_utf8("\r\n"@) =~= seq![13u8, 10u8]);
}

/// Whether `t` can be sent as a line: it has no line feed in it.
pub open spec fn one_line(t: Seq<char>) -> bool {
    forall|i: int| 0 <= i < t.len() ==> #[trigger] t[i] != '\n'
}

/// A line that was sent is read as it was.
proof fn lemma_line(buf: Seq<u8>, pos: int, t: Seq<char>, limit: int, ended: bool)
    requires
        text::stands_at(buf, pos, encode_utf8(t) + encode_utf8("\r\n"@)),
        one_line(t),
        encode_utf8(t).len() + 2 <= limit,
    ensures
        parse::line_at(buf, pos, limit, ended) == (LineView::Line {
            text: t,
            next: pos + encode_utf8(t).len() + 2,
        }),
{
    reveal(text::stands_at);
    let e = encode_utf8(t);
    lemma_line_end();
    text::lemma_stands_apart(buf, pos, e, seq![13u8, 10u8]);
    text::lemma_encode_without(t, 10u8);
    let rest = buf.skip(pos);
    let k = e.len() + 1;
    assert forall|j: int| 0 <= j < k implies #[trigger] rest[j] != 10u8 by {
        if j < e.len() {
            assert(rest[j] == buf.subrange(pos, pos + e.len())[j]);
            assert(e[j] != 10u8);
        } else {
            assert(rest[j] == buf.subrange(pos + e.len(), pos + e.len() + 2)[0]);
        }
    }
    assert(rest[k as int] == buf.subrange(pos + e.len(), pos + e.len() + 2)[1]);
    text::lemma_find_at(rest, 10u8, k as int);
    assert(rest.take(k as int) =~= e.push(13u8)) by {
        assert(rest[e.len() as int] == buf.subrange(pos + e.len(), pos + e.len() + 2)[0]);
        assert forall|j: int| 0 <= j < e.len() implies rest[j] == e[j] by {
            assert(rest[j] == buf.subrange(pos, pos + e.len())[j]);
        }
    }
    assert(parse::without_cr(e.push(13u8)) =~= e);
    encode_utf8_valid_utf8(t);
    encode_utf8_decode_utf8(t);
}

// ---------------------------------------------------------------------------
// Bodies in chunks
// ---------------------------------------------------------------------------

/// The pieces of a body put together.
pub open spec fn joined(pieces: Seq<Seq<u8>>) -> Seq<u8> {
    response::body_bytes(pieces, false)
}

/// A body begins with the first of its pieces.
proof fn lemma_body_prefix(pieces: Seq<Seq<u8>>, k: nat, chunked: bool)
    requires
        k <= pieces.len(),
    ensures
        text::stands_at(
            response::body_bytes(pieces, chunked),
            0,
            response::body_bytes(pieces.take(k as int), chunked),
        ),
    decreases pieces.len(),
{
    reveal(text::stands_at);
    let all = response::body_bytes(pieces, chunked);
    if k == pieces.len() {
        assert(pieces.take(k as int) =~= pieces);
        assert(all.subrange(0, all.len() as int) =~= all);
    } else {
        let front = pieces.drop_last();
        lemma_body_prefix(front, k, chunked);
        assert(front.take(k as int) =~= pieces.take(k as int));
        let part = response::body_bytes(pieces.take(k as int), chunked);
        assert(all.subrange(0, part.len() as int) =~= response::body_bytes(front, chunked).subrange(
            0,
            part.len() as int,
        ));
    }
}

proof fn lemma_chunk_line(n: nat)
    requires
        0 < n <= i64::MAX,
    ensures
        one_line(text::hex(n)),
        encode_utf8(text::hex(n)).len() + 2 <= MAX_CHUNK_LINE_BYTES,
        parse::chunk_size(text::hex(n)) == Some(n as int),
{
    let h = text::hex(n);
    text::lemma_hex_reads_back(n);
    assert forall|i: int| 0 <= i < h.len() implies '\0' <= #[trigger] h[i] <= '\u{7f}' by {
        assert(text::is_digit(h[i]) || 'a' <= h[i] <= 'f');
    }
    is_ascii_chars_encode_utf8(h);
    assert(h.len() <= 16) by {
        reveal_with_fuel(text::hex, 17);
    }
    lemma_size_part(h);
}

proof fn lemma_size_part(h: Seq<char>)
    requires
        forall|i: int| 0 <= i < h.len() ==> text::is_digit(#[trigger] h[i]) || 'a' <= h[i] <= 'f',
    ensures
        parse::size_part(h) == h,
    decreases h.len(),
{
    if h.len() > 0 {
        assert(text::is_digit(h[0]) || 'a' <= h[0] <= 'f');
        let t = h.drop_first();
        assert forall|i: int| 0 <= i < t.len() implies text::is_digit(#[trigger] t[i]) || 'a'
            <= t[i] <= 'f' by {
            assert(t[i] == h[i + 1]);
        }
        lemma_size_part(t);
        assert(seq![h[0]] + t =~= h);
    } else {
        assert(parse::size_part(h) =~= h);
    }
}

proof fn lemma_last_chunk(buf: Seq<u8>, pos: int, ended: bool, short: Seq<char>, got: Seq<u8>)
    requires
        text::stands_at(buf, pos, encode_utf8("0\r\n\r\n"@)),
    ensures
        parse::chunks_at(buf, pos, ended, short, got) == BodyProgress::Done(got),
{
    reveal(text::stands_at);
    reveal_strlit("0\r\n\r\n");
    reveal_strlit("\r\n");
    reveal_strlit("0");
    let none = Seq::<char>::empty();
    assert("0\r\n\r\n"@ =~= "0"@ + "\r\n"@ + (none + "\r\n"@));
    text::lemma_encode_concat("0"@ + "\r\n"@, none + "\r\n"@);
    text::lemma_encode_concat("0"@, "\r\n"@);
    text::lemma_encode_concat(none, "\r\n"@);
    text::lemma_stands_apart(
        buf,
        pos,
        encode_utf8("0"@) + encode_utf8("\r\n"@),
        encode_utf8(none) + encode_utf8("\r\n"@),
    );
    is_ascii_chars_encode_utf8("0"@);
    lemma_line_end();
    lemma_line(buf, pos, "0"@, MAX_CHUNK_LINE_BYTES as int, ended);
    assert(text::hex(0) =~= "0"@);
    text::lemma_hex_reads_back(0);
    lemma_size_part("0"@);
    lemma_line(buf, pos + 3, none, parse::MAX_REQUEST_LINE_BYTES as int, ended);
}

/// A chunk is read and the ones behind it go on from there.
proof fn lemma_one_chunk(
    buf: Seq<u8>,
    at: int,
    data: Seq<u8>,
    ended: bool,
    short: Seq<char>,
    got: Seq<u8>,
)
    requires
        text::stands_at(buf, at, response::chunk(data)),
        0 < data.len(),
        got.len() + data.len() <= MAX_BODY_BYTES,
    ensures
        parse::chunks_at(buf, at, ended, short, got) == parse::chunks_at(
            buf,
            at + response::chunk(data).len(),
            ended,
            short,
            got + data,
        ),
{
    reveal(text::stands_at);
    let n = data.len();
    let size = text::hex(n);
    let end = encode_utf8("\r\n"@);
    let line = encode_utf8(size) + end;
    text::lemma_encode_concat(size, "\r\n"@);
    lemma_line_end();
    assert(response::chunk(data) =~= line + (data + end));
    text::lemma_stands_apart(buf, at, line, data + end);
    text::lemma_stands_apart(buf, at + line.len(), data, end);
    lemma_chunk_line(n);
    lemma_line(buf, at, size, MAX_CHUNK_LINE_BYTES as int, ended);
}

/// A body begins with the first of its pieces, wherever it stands.
proof fn lemma_part_stands(
    buf: Seq<u8>,
    pos: int,
    pieces: Seq<Seq<u8>>,
    k: nat,
)
    requires
        k < pieces.len(),
        text::stands_at(buf, pos, response::body_bytes(pieces, true)),
    ensures
        text::stands_at(
            buf,
            pos + response::body_bytes(pieces.take(k as int), true).len(),
            response::chunk(pieces[k as int]),
        ),
        response::body_bytes(pieces.take(k as int + 1), true).len() == response::body_bytes(
            pieces.take(k as int),
            true,
        ).len() + response::chunk(pieces[k as int]).len(),
{
    reveal(text::stands_at);
    let sent = response::body_bytes(pieces, true);
    let through = pieces.take(k as int + 1);
    assert(through.drop_last() =~= pieces.take(k as int));
    lemma_body_prefix(pieces, (k + 1) as nat, true);
    let head = response::body_bytes(pieces.take(k as int), true);
    let both = head + response::chunk(pieces[k as int]);
    assert(response::body_bytes(through, true) == both);
    assert(buf.subrange(pos, pos + both.len()) =~= sent.subrange(0, both.len() as int)) by {
        assert forall|i: int| 0 <= i < both.len() implies buf[pos + i] == sent[i] by {
            assert(buf.subrange(pos, pos + sent.len())[i] == sent[i]);
        }
    }
    text::lemma_stands_apart(buf, pos, head, response::chunk(pieces[k as int]));
}

/// A body sent in chunks, none of them empty, is read as it was: its pieces put together.
pub proof fn law_chunks_read_back(
    buf: Seq<u8>,
    pos: int,
    pieces: Seq<Seq<u8>>,
    ended: bool,
    short: Seq<char>,
)
    requires
        forall|i: int| 0 <= i < pieces.len() ==> (#[trigger] pieces[i]).len() > 0,
        joined(pieces).len() <= MAX_BODY_BYTES,
        text::stands_at(buf, pos, response::body_bytes(pieces, true) + encode_utf8("0\r\n\r\n"@)),
    ensures
        parse::chunks_at(buf, pos, ended, short, Seq::empty()) == BodyProgress::Done(
            joined(pieces),
        ),
{
    assert(pieces.take(0) =~= Seq::<Seq<u8>>::empty());
    lemma_chunks_from(buf, pos, pieces, 0, ended, short);
}

proof fn lemma_chunks_from(
    buf: Seq<u8>,
    pos: int,
    pieces: Seq<Seq<u8>>,
    k: nat,
    ended: bool,
    short: Seq<char>,
)
    requires
        k <= pieces.len(),
        forall|i: int| 0 <= i < pieces.len() ==> (#[trigger] pieces[i]).len() > 0,
        joined(pieces).len() <= MAX_BODY_BYTES,
        text::stands_at(buf, pos, response::body_bytes(pieces, true) + encode_utf8("0\r\n\r\n"@)),
    ensures
        parse::chunks_at(
            buf,
            pos + response::body_bytes(pieces.take(k as int), true).len(),
            ended,
            short,
            joined(pieces.take(k as int)),
        ) == BodyProgress::Done(joined(pieces)),
    decreases pieces.len() - k,
{
    let sent = response::body_bytes(pieces, true);
    text::lemma_stands_apart(buf, pos, sent, encode_utf8("0\r\n\r\n"@));
    if k == pieces.len() {
        assert(pieces.take(k as int) =~= pieces);
        lemma_last_chunk(buf, pos + sent.len(), ended, short, joined(pieces));
    } else {
        let before = pieces.take(k as int);
        let through = pieces.take(k as int + 1);
        assert(through.drop_last() =~= before);
        assert(joined(through).len() <= joined(pieces).len()) by {
            reveal(text::stands_at);
            lemma_body_prefix(pieces, (k + 1) as nat, false);
        }
        assert(joined(through) == joined(before) + pieces[k as int]);
        lemma_part_stands(buf, pos, pieces, k);
        let at = pos + response::body_bytes(before, true).len();
        lemma_one_chunk(buf, at, pieces[k as int], ended, short, joined(before));
        lemma_chunks_from(buf, pos, pieces, (k + 1) as nat, ended, short);
    }
}

/// What is wrong with a body in chunks that grows to `n` bytes.
pub open spec fn too_long(n: nat) -> ResponseFault {
    parse::bad_data(
        "chunked body cumulative "@ + text::dec(n) + " exceeds "@ + text::dec(
            MAX_BODY_BYTES as nat,
        ) + " max"@,
    )
}

/// A chunk that makes a body too long is refused.
proof fn lemma_chunk_too_long(
    buf: Seq<u8>,
    at: int,
    data: Seq<u8>,
    ended: bool,
    short: Seq<char>,
    got: Seq<u8>,
)
    requires
        text::stands_at(buf, at, response::chunk(data)),
        0 < data.len() <= i64::MAX,
        got.len() + data.len() > MAX_BODY_BYTES,
    ensures
        parse::chunks_at(buf, at, ended, short, got) == BodyProgress::Fault(
            too_long(got.len() + data.len()),
        ),
{
    let n = data.len();
    let size = text::hex(n);
    let end = encode_utf8("\r\n"@);
    let line = encode_utf8(size) + end;
    text::lemma_encode_concat(size, "\r\n"@);
    lemma_line_end();
    assert(response::chunk(data) =~= line + (data + end));
    text::lemma_stands_apart(buf, at, line, data + end);
    lemma_chunk_line(n);
    lemma_line(buf, at, size, MAX_CHUNK_LINE_BYTES as int, ended);
}

/// Whether the first `k` pieces of a body are not too long, and with one more are.
pub open spec fn too_long_after(pieces: Seq<Seq<u8>>, k: int) -> bool {
    &&& 0 <= k < pieces.len()
    &&& joined(pieces.take(k)).len() <= MAX_BODY_BYTES < joined(pieces.take(k + 1)).len()
}

/// A body sent in chunks, none of them empty, that is too long is refused as bad data at the
/// chunk that makes it so.
pub proof fn law_long_body_is_refused(
    buf: Seq<u8>,
    pos: int,
    pieces: Seq<Seq<u8>>,
    ended: bool,
    short: Seq<char>,
)
    requires
        forall|i: int| 0 <= i < pieces.len() ==> 0 < (#[trigger] pieces[i]).len() <= i64::MAX,
        joined(pieces).len() > MAX_BODY_BYTES,
        text::stands_at(buf, pos, response::body_bytes(pieces, true)),
    ensures
        exists|k: int| #[trigger]
            too_long_after(pieces, k) && parse::chunks_at(buf, pos, ended, short, Seq::empty())
                == BodyProgress::Fault(too_long(joined(pieces.take(k + 1)).len())),
{
    assert(pieces.take(0) =~= Seq::<Seq<u8>>::empty());
    let k = lemma_long_from(buf, pos, pieces, 0, ended, short);
    assert(too_long_after(pieces, k));
}

proof fn lemma_long_from(
    buf: Seq<u8>,
    pos: int,
    pieces: Seq<Seq<u8>>,
    k: nat,
    ended: bool,
    short: Seq<char>,
) -> (last: int)
    requires
        k <= pieces.len(),
        forall|i: int| 0 <= i < pieces.len() ==> 0 < (#[trigger] pieces[i]).len() <= i64::MAX,
        joined(pieces.take(k as int)).len() <= MAX_BODY_BYTES,
        joined(pieces).len() > MAX_BODY_BYTES,
        text::stands_at(buf, pos, response::body_bytes(pieces, true)),
    ensures
        too_long_after(pieces, last),
        parse::chunks_at(
            buf,
            pos + response::body_bytes(pieces.take(k as int), true).len(),
            ended,
            short,
            joined(pieces.take(k as int)),
        ) == BodyProgress::Fault(too_long(joined(pieces.take(last + 1)).len())),
    decreases pieces.len() - k,
{
    if k == pieces.len() {
        assert(pieces.take(k as int) =~= pieces);
        0
    } else {
        let before = pieces.take(k as int);
        let through = pieces.take(k as int + 1);
        assert(through.drop_last() =~= before);
        assert(joined(through) == joined(before) + pieces[k as int]);
        lemma_part_stands(buf, pos, pieces, k);
        let at = pos + response::body_bytes(before, true).len();
        if joined(through).len() > MAX_BODY_BYTES {
            lemma_chunk_too_long(buf, at, pieces[k as int], ended, short, joined(before));
            k as int
        } else {
            lemma_one_chunk(buf, at, pieces[k as int], ended, short, joined(before));
            lemma_long_from(buf, pos, pieces, (k + 1) as nat, ended, short)
        }
    }
}

// ---------------------------------------------------------------------------
// Header fields
// ---------------------------------------------------------------------------

/// A header line: a name and one value.
pub type LinePair = (Seq<char>, Seq<char>);

/// The text of a header line.
pub open spec fn pair_text(p: LinePair) -> Seq<char> {
    p.0 + ": "@ + p.1
}

/// The lines of a field, one for each of the first `n` values.
pub open spec fn value_pairs(name: Seq<char>, values: Seq<Seq<char>>, n: nat) -> Seq<LinePair>
    decreases n,
{
    if n == 0 || n > values.len() {
        Seq::empty()
    } else {
        value_pairs(name, values, (n - 1) as nat).push((name, values[n - 1]))
    }
}

/// The lines of the first `n` fields.
pub open spec fn field_pairs(es: Seq<FieldView>, n: nat) -> Seq<LinePair>
    decreases n,
{
    if n == 0 || n > es.len() {
        Seq::empty()
    } else {
        field_pairs(es, (n - 1) as nat) + value_pairs(es[n - 1].0, es[n - 1].1, es[n - 1].1.len())
    }
}

/// Lines one after the other.
pub open spec fn pairs_text(ps: Seq<LinePair>) -> Seq<char>
    decreases ps.len(),
{
    if ps.len() == 0 {
        Seq::empty()
    } else {
        pairs_text(ps.drop_last()) + pair_text(ps.last()) + "\r\n"@
    }
}

proof fn lemma_pairs_concat(a: Seq<LinePair>, b: Seq<LinePair>)
    ensures
        pairs_text(a + b) == pairs_text(a) + pairs_text(b),
    decreases b.len(),
{
    if b.len() == 0 {
        assert(a + b =~= a);
        assert(pairs_text(a) + pairs_text(b) =~= pairs_text(a));
    } else {
        assert((a + b).drop_last() =~= a + b.drop_last());
        lemma_pairs_concat(a, b.drop_last());
        assert(pairs_text(a + b) =~= pairs_text(a) + pairs_text(b));
    }
}

proof fn lemma_value_lines(name: Seq<char>, values: Seq<Seq<char>>, n: nat)
    requires
        n <= values.len(),
    ensures
        response::value_lines(name, values, n) == pairs_text(value_pairs(name, values, n)),
    decreases n,
{
    if n > 0 {
        lemma_value_lines(name, values, (n - 1) as nat);
        let ps = value_pairs(name, values, n);
        assert(ps.drop_last() =~= value_pairs(name, values, (n - 1) as nat));
        assert(response::value_lines(name, values, n) =~= pairs_text(ps));
    }
}

proof fn lemma_field_lines(es: Seq<FieldView>, n: nat)
    requires
        n <= es.len(),
    ensures
        response::field_lines(es, n) == pairs_text(field_pairs(es, n)),
    decreases n,
{
    if n > 0 {
        lemma_field_lines(es, (n - 1) as nat);
        let e = es[n - 1];
        lemma_value_lines(e.0, e.1, e.1.len());
        lemma_pairs_concat(field_pairs(es, (n - 1) as nat), value_pairs(e.0, e.1, e.1.len()));
    }
}

/// The fields that a reader collects from lines.
pub open spec fn collected(ps: Seq<LinePair>) -> Map<Seq<char>, Seq<Seq<char>>>
    decreases ps.len(),
{
    if ps.len() == 0 {
        Map::empty()
    } else {
        header::with_value(collected(ps.drop_last()), ps.last().0, ps.last().1)
    }
}

/// The host that a reader finds in lines: the first one that is not empty.
pub open spec fn host_in(ps: Seq<LinePair>) -> Seq<char>
    decreases ps.len(),
{
    if ps.len() == 0 {
        Seq::empty()
    } else {
        let h = host_in(ps.drop_last());
        if ps.last().0 == "Host"@ && h.len() == 0 {
            ps.last().1
        } else {
            h
        }
    }
}

/// Whether a header line is read as it was written: its name is not empty, is in canonical form
/// and has no colon in it, neither name nor value has white space around it, and neither has a
/// line feed in it.
pub open spec fn plain_pair(p: LinePair) -> bool {
    &&& p.0.len() > 0
    &&& header::canonical(p.0) == p.0
    &&& text::trim(p.0) == p.0
    &&& text::trim(p.1) == p.1
    &&& one_line(p.0)
    &&& one_line(p.1)
    &&& forall|i: int| 0 <= i < p.0.len() ==> #[trigger] p.0[i] != ':'
}

/// Whether lines are within what a reader takes.
pub open spec fn lines_fit(ps: Seq<LinePair>) -> bool {
    &&& ps.len() <= MAX_HEADER_COUNT
    &&& encode_utf8(pairs_text(ps)).len() <= MAX_HEADER_BYTES
    &&& forall|i: int|
        0 <= i < ps.len() ==> encode_utf8(pair_text(#[trigger] ps[i])).len() + 2
            <= MAX_REQUEST_LINE_BYTES
}

proof fn lemma_pair_line(p: LinePair)
    requires
        plain_pair(p),
    ensures
        one_line(pair_text(p)),
        pair_text(p).len() > 0,
        text::find(pair_text(p), ':') == Some(p.0.len() as int),
        text::trim(pair_text(p).take(p.0.len() as int)) == p.0,
        text::trim(pair_text(p).skip(p.0.len() as int + 1)) == p.1,
{
    reveal_strlit(": ");
    let line = pair_text(p);
    let n = p.0.len() as int;
    assert forall|i: int| 0 <= i < line.len() implies #[trigger] line[i] != '\n' by {
        if i < n {
            assert(line[i] == p.0[i]);
        } else if i >= n + 2 {
            assert(line[i] == p.1[i - n - 2]);
        }
    }
    assert forall|j: int| 0 <= j < n implies #[trigger] line[j] != ':' by {
        assert(line[j] == p.0[j]);
    }
    text::lemma_find_at(line, ':', n);
    assert(line.take(n) =~= p.0);
    let value = line.skip(n + 1);
    assert(value[0] == ' ');
    assert(value.drop_first() =~= p.1);
    assert(text::trim_start(value) == text::trim_start(p.1));
}

proof fn lemma_text_prefix(ps: Seq<LinePair>, k: nat)
    requires
        k <= ps.len(),
    ensures
        pairs_text(ps) == pairs_text(ps.take(k as int)) + pairs_text(ps.skip(k as int)),
        k < ps.len() ==> encode_utf8(pairs_text(ps.take(k as int + 1))) == encode_utf8(
            pairs_text(ps.take(k as int)),
        ) + (encode_utf8(pair_text(ps[k as int])) + encode_utf8("\r\n"@)),
{
    assert(ps =~= ps.take(k as int) + ps.skip(k as int));
    lemma_pairs_concat(ps.take(k as int), ps.skip(k as int));
    if k < ps.len() {
        let through = ps.take(k as int + 1);
        assert(through.drop_last() =~= ps.take(k as int));
        let (a, b) = (pairs_text(ps.take(k as int)), pair_text(ps[k as int]));
        assert(pairs_text(through) =~= a + (b + "\r\n"@));
        text::lemma_encode_concat(a, b + "\r\n"@);
        text::lemma_encode_concat(b, "\r\n"@);
    }
}

/// Each header line stands behind those before it.
proof fn lemma_pair_stands(buf: Seq<u8>, pos: int, ps: Seq<LinePair>, k: nat)
    requires
        k < ps.len(),
        text::stands_at(buf, pos, encode_utf8(pairs_text(ps))),
    ensures
        text::stands_at(
            buf,
            pos + encode_utf8(pairs_text(ps.take(k as int))).len(),
            encode_utf8(pair_text(ps[k as int])) + encode_utf8("\r\n"@),
        ),
        encode_utf8(pairs_text(ps.take(k as int + 1))).len() <= encode_utf8(pairs_text(ps)).len(),
{
    let before = encode_utf8(pairs_text(ps.take(k as int)));
    let sent = encode_utf8(pair_text(ps[k as int])) + encode_utf8("\r\n"@);
    lemma_text_prefix(ps, k);
    lemma_text_prefix(ps, (k + 1) as nat);
    let through = pairs_text(ps.take(k as int + 1));
    let rest = encode_utf8(pairs_text(ps.skip(k as int + 1)));
    text::lemma_encode_concat(through, pairs_text(ps.skip(k as int + 1)));
    assert(encode_utf8(pairs_text(ps)) =~= before + (sent + rest));
    text::lemma_stands_apart(buf, pos, before, sent + rest);
    text::lemma_stands_apart(buf, pos + before.len(), sent, rest);
}

/// A header line is read and the ones behind it go on from there.
proof fn lemma_one_field(
    buf: Seq<u8>,
    at: int,
    p: LinePair,
    ended: bool,
    count: int,
    total: int,
    h: Map<Seq<char>, Seq<Seq<char>>>,
    host: Seq<char>,
)
    requires
        plain_pair(p),
        text::stands_at(buf, at, encode_utf8(pair_text(p)) + encode_utf8("\r\n"@)),
        encode_utf8(pair_text(p)).len() + 2 <= MAX_REQUEST_LINE_BYTES,
        0 <= count < MAX_HEADER_COUNT,
        total + encode_utf8(pair_text(p)).len() + 2 <= MAX_HEADER_BYTES,
    ensures
        parse::fields_at(buf, at, ended, count, total, h, host) == parse::fields_at(
            buf,
            at + encode_utf8(pair_text(p)).len() + 2,
            ended,
            count + 1,
            total + encode_utf8(pair_text(p)).len() + 2,
            header::with_value(h, p.0, p.1),
            if p.0 == "Host"@ && host.len() == 0 {
                p.1
            } else {
                host
            },
        ),
{
    lemma_pair_line(p);
    lemma_line(buf, at, pair_text(p), MAX_REQUEST_LINE_BYTES as int, ended);
}

/// Header lines from the `k`th on are read behind those before them.
proof fn lemma_fields_from(buf: Seq<u8>, pos: int, ps: Seq<LinePair>, k: nat, ended: bool)
    requires
        k <= ps.len(),
        forall|i: int| 0 <= i < ps.len() ==> plain_pair(#[trigger] ps[i]),
        lines_fit(ps),
        text::stands_at(buf, pos, encode_utf8(pairs_text(ps)) + encode_utf8("\r\n"@)),
    ensures
        parse::fields_at(
            buf,
            pos + encode_utf8(pairs_text(ps.take(k as int))).len(),
            ended,
            k as int,
            encode_utf8(pairs_text(ps.take(k as int))).len() as int,
            collected(ps.take(k as int)),
            host_in(ps.take(k as int)),
        ) == (FieldsView::Done {
            header: collected(ps),
            host: host_in(ps),
            next: pos + encode_utf8(pairs_text(ps)).len() + 2,
        }),
    decreases ps.len() - k,
{
    let all = encode_utf8(pairs_text(ps));
    let before = encode_utf8(pairs_text(ps.take(k as int)));
    let at = pos + before.len();
    text::lemma_stands_apart(buf, pos, all, encode_utf8("\r\n"@));
    lemma_line_end();
    if k == ps.len() {
        assert(ps.take(k as int) =~= ps);
        let none = Seq::<char>::empty();
        assert(encode_utf8(none) + encode_utf8("\r\n"@) =~= encode_utf8("\r\n"@));
        lemma_line(buf, at, none, MAX_REQUEST_LINE_BYTES as int, ended);
    } else {
        let p = ps[k as int];
        lemma_text_prefix(ps, k);
        lemma_pair_stands(buf, pos, ps, k);
        lemma_one_field(
            buf,
            at,
            p,
            ended,
            k as int,
            before.len() as int,
            collected(ps.take(k as int)),
            host_in(ps.take(k as int)),
        );
        assert(ps.take(k as int + 1).drop_last() =~= ps.take(k as int));
        assert(ps.take(k as int + 1).last() == p);
        lemma_fields_from(buf, pos, ps, (k + 1) as nat, ended);
    }
}

proof fn lemma_collected_values(a: Seq<LinePair>, name: Seq<char>, values: Seq<Seq<char>>, n: nat)
    requires
        0 < n <= values.len(),
        header::canonical(name) == name,
        !collected(a).dom().contains(name),
    ensures
        collected(a + value_pairs(name, values, n)) == collected(a).insert(
            name,
            values.take(n as int),
        ),
    decreases n,
{
    let b = value_pairs(name, values, n);
    let b0 = value_pairs(name, values, (n - 1) as nat);
    assert((a + b).drop_last() =~= a + b0);
    assert((a + b).last() == (name, values[n - 1]));
    if n == 1 {
        assert(a + b0 =~= a);
        assert(Seq::<Seq<char>>::empty().push(values[0]) =~= values.take(1));
    } else {
        lemma_collected_values(a, name, values, (n - 1) as nat);
        assert(values.take(n - 1).push(values[n - 1]) =~= values.take(n as int));
    }
    assert(collected(a + b) =~= collected(a).insert(name, values.take(n as int)));
}

/// Whether fields are read as they were written: each has a value, their lines are plain, and
/// they are within what a reader takes.
pub open spec fn plain_fields(es: Seq<FieldView>) -> bool {
    let ps = field_pairs(es, es.len());
    &&& header::names_ascend(es)
    &&& forall|i: int|
        0 <= i < es.len() ==> (#[trigger] es[i]).1.len() > 0 && header::canonical(es[i].0)
            == es[i].0
    &&& forall|i: int| 0 <= i < ps.len() ==> plain_pair(#[trigger] ps[i])
    &&& lines_fit(ps)
}

/// A field with one short value in ASCII.
pub open spec fn short_field(e: FieldView) -> bool {
    &&& e.1.len() == 1
    &&& plain_pair((e.0, e.1[0]))
    &&& is_ascii_chars(e.0)
    &&& is_ascii_chars(e.1[0])
    &&& e.0.len() <= 40
    &&& e.1[0].len() <= 40
}

proof fn lemma_short_lines(es: Seq<FieldView>, n: nat)
    requires
        n <= es.len(),
        forall|i: int| 0 <= i < es.len() ==> short_field(#[trigger] es[i]),
    ensures
        ({
            let ps = field_pairs(es, n);
            &&& ps.len() == n
            &&& forall|i: int| 0 <= i < n ==> #[trigger] ps[i] == (es[i].0, es[i].1[0])
            &&& is_ascii_chars(pairs_text(ps))
            &&& pairs_text(ps).len() <= 84 * n
        }),
    decreases n,
{
    if n > 0 {
        lemma_short_lines(es, (n - 1) as nat);
        let e = es[n - 1];
        let before = field_pairs(es, (n - 1) as nat);
        let ps = field_pairs(es, n);
        assert(short_field(e));
        assert(value_pairs(e.0, e.1, 0) =~= Seq::<LinePair>::empty());
        assert(value_pairs(e.0, e.1, 1) =~= seq![(e.0, e.1[0])]);
        assert(ps =~= before.push((e.0, e.1[0])));
        assert(ps.drop_last() =~= before);
        reveal_strlit(": ");
        reveal_strlit("\r\n");
        let a = pairs_text(before);
        let line = pair_text((e.0, e.1[0]));
        let t = pairs_text(ps);
        assert(t == a + line + "\r\n"@);
        assert forall|i: int| 0 <= i < t.len() implies '\0' <= #[trigger] t[i] <= '\u{7f}' by {
            if i < a.len() {
                assert(t[i] == a[i]);
            } else if i < a.len() + line.len() {
                assert(t[i] == line[i - a.len()]);
                let j = i - a.len();
                if j < e.0.len() {
                    assert(line[j] == e.0[j]);
                } else if j >= e.0.len() + 2 {
                    assert(line[j] == e.1[0][j - e.0.len() - 2]);
                }
            }
        }
    } else {
        assert(pairs_text(field_pairs(es, n)) =~= Seq::<char>::empty());
    }
}

/// A few short fields are read as they were written.
pub proof fn lemma_short_fields(es: Seq<FieldView>)
    requires
        es.len() <= MAX_HEADER_COUNT,
        header::names_ascend(es),
        forall|i: int| 0 <= i < es.len() ==> short_field(#[trigger] es[i]),
    ensures
        plain_fields(es),
{
    let ps = field_pairs(es, es.len());
    lemma_short_lines(es, es.len());
    is_ascii_chars_encode_utf8(pairs_text(ps));
    assert forall|i: int| 0 <= i < ps.len() implies plain_pair(#[trigger] ps[i]) && encode_utf8(
        pair_text(ps[i]),
    ).len() + 2 <= MAX_REQUEST_LINE_BYTES by {
        assert(short_field(es[i]));
        lemma_short_lines(seq![es[i]], 1);
        let one = field_pairs(seq![es[i]], 1);
        assert(one[0] == ps[i]);
        assert(one.drop_last() =~= Seq::<LinePair>::empty());
        assert(pairs_text(one.drop_last()) =~= Seq::<char>::empty());
        let line = pair_text(ps[i]);
        let t = pairs_text(one);
        assert(t =~= line + "\r\n"@);
        reveal_strlit("\r\n");
        assert forall|j: int| 0 <= j < line.len() implies '\0' <= #[trigger] line[j] <= '\u{7f}' by {
            assert(line[j] == t[j]);
        }
        is_ascii_chars_encode_utf8(line);
    }
}

proof fn lemma_collected_fields(es: Seq<FieldView>, n: nat)
    requires
        n <= es.len(),
        header::names_ascend(es),
        forall|i: int|
            0 <= i < es.len() ==> (#[trigger] es[i]).1.len() > 0 && header::canonical(es[i].0)
                == es[i].0,
    ensures
        collected(field_pairs(es, n)) == header::map_of(es.take(n as int)),
    decreases n,
{
    if n == 0 {
        assert(es.take(0) =~= Seq::<FieldView>::empty());
    } else {
        let e = es[n - 1];
        let before = es.take(n - 1);
        lemma_collected_fields(es, (n - 1) as nat);
        assert forall|j: int| 0 <= j < before.len() implies (#[trigger] before[j]).0 != e.0 by {
            assert(before[j] == es[j]);
            text::lemma_before_total(es[j].0, e.0);
        }
        header::lemma_map_absent(before, e.0);
        header::lemma_map_insert(before, n - 1, e);
        assert(before.insert(n - 1, e) =~= es.take(n as int));
        lemma_collected_values(field_pairs(es, (n - 1) as nat), e.0, e.1, e.1.len());
        assert(e.1.take(e.1.len() as int) =~= e.1);
    }
}

/// The host that a reader finds is the first value of the field for it.
proof fn lemma_host(ps: Seq<LinePair>)
    requires
        forall|i: int| 0 <= i < ps.len() ==> plain_pair(#[trigger] ps[i]),
    ensures
        !collected(ps).dom().contains("Host"@) ==> host_in(ps).len() == 0,
        collected(ps).dom().contains("Host"@) ==> collected(ps)["Host"@].len() > 0 && (collected(
            ps,
        )["Host"@][0].len() > 0 ==> host_in(ps) == collected(ps)["Host"@][0]),
    decreases ps.len(),
{
    if ps.len() > 0 {
        let q = ps.drop_last();
        assert forall|i: int| 0 <= i < q.len() implies plain_pair(#[trigger] q[i]) by {
            assert(q[i] == ps[i]);
        }
        lemma_host(q);
        assert(plain_pair(ps[ps.len() - 1]));
    }
}

/// Header fields that were sent are read as they were.
pub proof fn law_header_reads_back(buf: Seq<u8>, pos: int, es: Seq<FieldView>, ended: bool)
    requires
        plain_fields(es),
        text::stands_at(buf, pos, encode_utf8(response::header_text(header::map_of(es)))),
    ensures
        parse::fields_at(buf, pos, ended, 0, 0, Map::empty(), Seq::empty()) == (FieldsView::Done {
            header: header::map_of(es),
            host: host_in(field_pairs(es, es.len())),
            next: pos + encode_utf8(response::header_text(header::map_of(es))).len(),
        }),
{
    let ps = field_pairs(es, es.len());
    header::lemma_listing(es);
    lemma_field_lines(es, es.len());
    text::lemma_encode_concat(pairs_text(ps), "\r\n"@);
    lemma_line_end();
    assert(ps.take(0) =~= Seq::<LinePair>::empty());
    lemma_fields_from(buf, pos, ps, 0, ended);
    lemma_collected_fields(es, es.len());
    assert(es.take(es.len() as int) =~= es);
}

// ---------------------------------------------------------------------------
// Requests
// ---------------------------------------------------------------------------

/// The first line of a request.
pub open spec fn request_line(method: Seq<char>, target: Seq<char>) -> Seq<char> {
    method + " "@ + target + " HTTP/1.1"@
}

proof fn lemma_request_line(method: Seq<char>, target: Seq<char>)
    requires
        method == METHOD_GET@ || method == METHOD_POST@,
        target.len() > 0,
        one_line(target),
        forall|i: int| 0 <= i < target.len() ==> #[trigger] target[i] != ' ',
    ensures
        one_line(request_line(method, target)),
        parse::request_line_parts(request_line(method, target)) == Ok::<
            (Seq<char>, Seq<char>, Seq<char>),
            super::ReadFaultView,
        >((method, target, "HTTP/1.1"@)),
        parse::request_line_fault(method, "HTTP/1.1"@) is None,
{
    reveal_strlit("GET");
    reveal_strlit("POST");
    reveal_strlit(" ");
    reveal_strlit(" HTTP/1.1");
    reveal_strlit("HTTP/1.1");
    let line = request_line(method, target);
    let a = method.len() as int;
    let b = target.len() as int;
    assert(forall|j: int| 0 <= j < a ==> line[j] == method[j]);
    assert forall|i: int| 0 <= i < line.len() implies #[trigger] line[i] != '\n' by {
        if a + 1 <= i < a + 1 + b {
            assert(line[i] == target[i - a - 1]);
        } else if i >= a + 1 + b {
            assert(line[i] == " HTTP/1.1"@[i - a - 1 - b]);
        }
    }
    text::lemma_find_at(line, ' ', a);
    let rest = line.skip(a + 1);
    assert forall|j: int| 0 <= j < b implies #[trigger] rest[j] != ' ' by {
        assert(rest[j] == target[j]);
    }
    assert(rest[b] == ' ');
    text::lemma_find_at(rest, ' ', b);
    assert(line.take(a) =~= method);
    assert(rest.take(b) =~= target);
    assert(rest.skip(b + 1) =~= "HTTP/1.1"@);
}

proof fn lemma_request_bytes(
    method: Seq<char>,
    target: Seq<char>,
    h: Map<Seq<char>, Seq<Seq<char>>>,
    body: Seq<u8>,
)
    ensures
        client::request_bytes(method, target, h, body) == encode_utf8(request_line(method, target))
            + encode_utf8("\r\n"@) + (encode_utf8(response::header_text(h)) + body),
{
    let line = request_line(method, target);
    let head = response::header_text(h);
    reveal_strlit(" HTTP/1.1\r\n");
    reveal_strlit(" HTTP/1.1");
    reveal_strlit("\r\n");
    assert(" HTTP/1.1\r\n"@ =~= " HTTP/1.1"@ + "\r\n"@);
    assert(method + " "@ + target + " HTTP/1.1\r\n"@ + head =~= line + "\r\n"@ + head);
    text::lemma_encode_concat(line + "\r\n"@, head);
    text::lemma_encode_concat(line, "\r\n"@);
    assert(client::request_bytes(method, target, h, body) =~= encode_utf8(line) + encode_utf8(
        "\r\n"@,
    ) + (encode_utf8(head) + body));
}

/// What stands behind a first line: the header fields, and the body.
proof fn lemma_behind_line(
    buf: Seq<u8>,
    line: Seq<char>,
    es: Seq<FieldView>,
    body: Seq<u8>,
    ended: bool,
)
    requires
        buf == encode_utf8(line) + encode_utf8("\r\n"@) + (encode_utf8(
            response::header_text(header::map_of(es)),
        ) + body),
        one_line(line),
        encode_utf8(line).len() + 2 <= MAX_REQUEST_LINE_BYTES,
        plain_fields(es),
    ensures
        ({
            let next = encode_utf8(line).len() as int + 2;
            let at = next + encode_utf8(response::header_text(header::map_of(es))).len();
            &&& parse::line_at(buf, 0, MAX_REQUEST_LINE_BYTES as int, ended) == (LineView::Line {
                text: line,
                next,
            })
            &&& parse::fields_at(buf, next, ended, 0, 0, Map::empty(), Seq::empty()) == (
            FieldsView::Done {
                header: header::map_of(es),
                host: host_in(field_pairs(es, es.len())),
                next: at,
            })
            &&& text::stands_at(buf, at, body)
            &&& at + body.len() == buf.len()
            &&& buf.subrange(at, at + body.len()) == body
        }),
{
    let first = encode_utf8(line) + encode_utf8("\r\n"@);
    let head = encode_utf8(response::header_text(header::map_of(es)));
    text::lemma_stands_whole(buf);
    text::lemma_stands_apart(buf, 0, first, head + body);
    text::lemma_stands_apart(buf, first.len() as int, head, body);
    lemma_line_end();
    lemma_line(buf, 0, line, MAX_REQUEST_LINE_BYTES as int, ended);
    law_header_reads_back(buf, first.len() as int, es, ended);
    assert(buf.subrange(
        (first.len() + head.len()) as int,
        (first.len() + head.len() + body.len()) as int,
    ) == body) by {
        reveal(text::stands_at);
    }
}

/// The host that a reader finds is the one that was sent.
proof fn lemma_host_found(es: Seq<FieldView>)
    requires
        plain_fields(es),
        header::field(header::map_of(es), "Host"@) matches Some(h) && h.len() > 0,
    ensures
        host_in(field_pairs(es, es.len())) == header::field(header::map_of(es), "Host"@)->0,
{
    lemma_collected_fields(es, es.len());
    assert(es.take(es.len() as int) =~= es);
    lemma_host(field_pairs(es, es.len()));
    header::lemma_names();
}

/// A request that was sent with the fields `es` and the body `body` is read as it was. Its
/// target has no blank in it, its head is within the limits and asks for no other protocol.
pub proof fn law_request_reads_back(
    method: Seq<char>,
    target: Seq<char>,
    es: Seq<FieldView>,
    body: Seq<u8>,
    ended: bool,
)
    requires
        method == METHOD_GET@ || method == METHOD_POST@,
        target.len() > 0,
        one_line(target),
        forall|i: int| 0 <= i < target.len() ==> #[trigger] target[i] != ' ',
        encode_utf8(request_line(method, target)).len() + 2 <= MAX_REQUEST_LINE_BYTES,
        plain_fields(es),
        header::field(header::map_of(es), "Host"@) matches Some(h) && h.len() > 0,
        header::field(header::map_of(es), "Content-Length"@) == Some(text::dec(body.len())),
        header::field(header::map_of(es), "Transfer-Encoding"@) is None,
        header::field(header::map_of(es), "Upgrade"@) is None,
        body.len() <= MAX_BODY_BYTES,
    ensures
        parse::request_at(
            client::request_bytes(method, target, header::map_of(es), body),
            ended,
        ) == RequestProgress::Done(
            RequestView {
                method,
                path: parse::path_query(target).0,
                raw_query: parse::path_query(target).1,
                header: header::map_of(es),
                body,
                host: header::field(header::map_of(es), "Host"@)->0,
                remote_addr: Seq::empty(),
                content_length: body.len() as int,
            },
        ),
{
    let h = header::map_of(es);
    let line = request_line(method, target);
    let buf = client::request_bytes(method, target, h, body);
    lemma_request_bytes(method, target, h, body);
    lemma_request_line(method, target);
    lemma_behind_line(buf, line, es, body, ended);
    lemma_host_found(es);
    text::lemma_dec_reads_back(body.len());
}

/// A request that announces a body of more than 1048576 bytes is answered with 413 before any of it
/// came; one that announces no more is waited for.
pub proof fn law_announced_length(
    method: Seq<char>,
    target: Seq<char>,
    es: Seq<FieldView>,
    body: Seq<u8>,
    n: nat,
)
    requires
        method == "GET"@ || method == "POST"@,
        target.len() > 0,
        one_line(target),
        forall|i: int| 0 <= i < target.len() ==> #[trigger] target[i] != ' ',
        encode_utf8(request_line(method, target)).len() + 2 <= 8192,
        plain_fields(es),
        header::field(header::map_of(es), "Host"@) matches Some(h) && h.len() > 0,
        header::field(header::map_of(es), "Content-Length"@) == Some(text::dec(n)),
        header::field(header::map_of(es), "Transfer-Encoding"@) is None,
        body.len() < n <= i64::MAX,
    ensures
        ({
            let r = parse::request_at(
                client::request_bytes(method, target, header::map_of(es), body),
                false,
            );
            &&& n > 1048576 ==> (r matches RequestProgress::Fault(
                super::ReadFaultView::Protocol { status, .. },
            ) && status == 413)
            &&& n <= 1048576 ==> r == (RequestProgress::More { headers_done: true })
        }),
{
    let h = header::map_of(es);
    let line = request_line(method, target);
    let buf = client::request_bytes(method, target, h, body);
    lemma_request_bytes(method, target, h, body);
    lemma_request_line(method, target);
    lemma_behind_line(buf, line, es, body, false);
    lemma_host_found(es);
    text::lemma_dec_reads_back(n);
}

/// Which requests are refused by their first line: with 426 those of another version, with 405
/// those by another method.
pub proof fn law_refused_request_lines(
    buf: Seq<u8>,
    method: Seq<char>,
    target: Seq<char>,
    version: Seq<char>,
    rest: Seq<u8>,
    ended: bool,
)
    requires
        method.len() > 0 && target.len() > 0 && version.len() > 0,
        one_line(method) && one_line(target) && one_line(version),
        forall|i: int| 0 <= i < method.len() ==> #[trigger] method[i] != ' ',
        forall|i: int| 0 <= i < target.len() ==> #[trigger] target[i] != ' ',
        encode_utf8(method + seq![' '] + target + seq![' '] + version).len() + 2 <= 8192,
        buf == encode_utf8(method + seq![' '] + target + seq![' '] + version) + encode_utf8("\r\n"@)
            + rest,
    ensures
        ({
            let r = parse::request_at(buf, ended);
            let known = version == "HTTP/1.1"@ || version == "HTTP/1.0"@;
            &&& !known ==> (r matches RequestProgress::Fault(
                super::ReadFaultView::Protocol { status, .. },
            ) && status == 426)
            &&& known && method != "GET"@ && method != "POST"@ ==> (r matches
                RequestProgress::Fault(super::ReadFaultView::Protocol { status, .. }) && status
                == 405)
        }),
{
    let line = method + seq![' '] + target + seq![' '] + version;
    let (a, b) = (method.len() as int, target.len() as int);
    assert forall|i: int| 0 <= i < line.len() implies #[trigger] line[i] != '\n' by {
        if i < a {
            assert(line[i] == method[i]);
        } else if a < i < a + 1 + b {
            assert(line[i] == target[i - a - 1]);
        } else if i > a + 1 + b {
            assert(line[i] == version[i - a - b - 2]);
        }
    }
    let sent = encode_utf8(line) + encode_utf8("\r\n"@);
    assert(text::stands_at(buf, 0, sent)) by {
        reveal(text::stands_at);
        assert(buf.subrange(0, sent.len() as int) =~= sent);
    }
    lemma_line(buf, 0, line, MAX_REQUEST_LINE_BYTES as int, ended);
    assert forall|j: int| 0 <= j < a implies line[j] != ' ' by {
        assert(line[j] == method[j]);
    }
    text::lemma_find_at(line, ' ', a);
    assert(line.take(a) =~= method);
    let tail = line.skip(a + 1);
    assert(tail =~= target + seq![' '] + version);
    assert forall|j: int| 0 <= j < b implies tail[j] != ' ' by {
        assert(tail[j] == target[j]);
    }
    text::lemma_find_at(tail, ' ', b);
    assert(tail.take(b) =~= target);
    assert(tail.skip(b + 1) =~= version);
}

/// A first line of more than 8192 bytes, its end counted, is refused with 414.
pub proof fn law_long_first_line(buf: Seq<u8>, k: int, ended: bool)
    requires
        0 <= k < buf.len(),
        buf[k] == 10,
        forall|i: int| 0 <= i < k ==> #[trigger] buf[i] != 10,
    ensures
        k + 1 > 8192 ==> (parse::request_at(buf, ended) matches RequestProgress::Fault(
            super::ReadFaultView::Protocol { status, .. },
        ) && status == 414),
        k + 1 <= 8192 ==> parse::line_at(buf, 0, MAX_REQUEST_LINE_BYTES as int, ended) is Line,
{
    assert(buf.skip(0) =~= buf);
    text::lemma_find_at(buf, 10u8, k);
}

/// A request that the client sends is read by the server as it was: `h` are the fields that were
/// set on it, `es` those that are sent with it.
pub proof fn law_client_reaches_server(
    method: Seq<char>,
    hostport: Seq<char>,
    target: Seq<char>,
    h: Map<Seq<char>, Seq<Seq<char>>>,
    es: Seq<FieldView>,
    body: Seq<u8>,
    ended: bool,
)
    requires
        method == METHOD_GET@ || method == METHOD_POST@,
        hostport.len() > 0,
        target.len() > 0,
        one_line(target),
        forall|i: int| 0 <= i < target.len() ==> #[trigger] target[i] != ' ',
        encode_utf8(request_line(method, target)).len() + 2 <= MAX_REQUEST_LINE_BYTES,
        header::map_of(es) == client::sent_fields(h, hostport, body.len()),
        plain_fields(es),
        header::field(h, "Transfer-Encoding"@) is None,
        header::field(h, "Upgrade"@) is None,
        body.len() <= MAX_BODY_BYTES,
    ensures
        parse::request_at(
            client::request_bytes(
                method,
                target,
                client::sent_fields(h, hostport, body.len()),
                body,
            ),
            ended,
        ) matches RequestProgress::Done(r) && r.method == method && r.path == parse::path_query(
            target,
        ).0 && r.raw_query == parse::path_query(target).1 && r.body == body && r.host == hostport
            && r.header == client::sent_fields(h, hostport, body.len()),
{
    header::lemma_names();
    law_request_reads_back(method, target, es, body, ended);
}

// ---------------------------------------------------------------------------
// Responses
// ---------------------------------------------------------------------------

/// The head of a response says that the body is sent in chunks exactly where no length was set,
/// and that the connection is to be closed.
pub proof fn law_head_announces_body(r: Reply, status: u16)
    requires
        r.sent is None,
    ensures
        r.begun(status).sent matches Some(s) && s.status == status && s.chunked == (header::field(
            r.header,
            "Content-Length"@,
        ) is None) && (s.chunked ==> header::field(s.header, "Transfer-Encoding"@) == Some(
            "chunked"@,
        )) && header::field(s.header, "Connection"@) == Some("close"@) && header::field(
            s.header,
            "Content-Length"@,
        ) == header::field(r.header, "Content-Length"@),
{
    header::lemma_names();
}

/// The reason that is sent with a status.
pub open spec fn sent_reason(status: u16) -> Seq<char> {
    if super::reason(status).len() == 0 {
        "Status"@
    } else {
        super::reason(status)
    }
}

/// The first line of a response.
pub open spec fn status_line(status: u16) -> Seq<char> {
    "HTTP/1.1 "@ + text::dec(status as nat) + " "@ + sent_reason(status)
}

proof fn lemma_reason(status: u16)
    ensures
        one_line(sent_reason(status)),
        is_ascii_chars(sent_reason(status)),
        sent_reason(status).len() <= 40,
{
    reveal_strlit("Status");
    reveal_strlit("");
    reveal_strlit("OK");
    reveal_strlit("Bad Request");
    reveal_strlit("Unauthorized");
    reveal_strlit("Forbidden");
    reveal_strlit("Not Found");
    reveal_strlit("Method Not Allowed");
    reveal_strlit("Request Timeout");
    reveal_strlit("Payload Too Large");
    reveal_strlit("URI Too Long");
    reveal_strlit("Unsupported Media Type");
    reveal_strlit("Expectation Failed");
    reveal_strlit("Upgrade Required");
    reveal_strlit("Request Header Fields Too Large");
    reveal_strlit("Internal Server Error");
    reveal_strlit("Not Implemented");
    reveal_strlit("Bad Gateway");
    reveal_strlit("Service Unavailable");
    reveal_strlit("Gateway Timeout");
}

proof fn lemma_status_line(status: u16)
    requires
        100 <= status <= 999,
    ensures
        one_line(status_line(status)),
        encode_utf8(status_line(status)).len() + 2 <= MAX_REQUEST_LINE_BYTES,
        parse::status_line_code(status_line(status)) == Ok::<u16, Seq<char>>(status),
{
    reveal_strlit("HTTP/1.1 ");
    reveal_strlit("HTTP/");
    reveal_strlit(" ");
    lemma_reason(status);
    let n = status as nat;
    text::lemma_dec_reads_back(n);
    let d = text::dec(n);
    assert(d.len() == 3) by {
        reveal_with_fuel(text::dec, 4);
    }
    let why = sent_reason(status);
    let line = status_line(status);
    assert(line.len() == 13 + why.len());
    assert forall|i: int| 0 <= i < line.len() implies #[trigger] line[i] != '\n' && '\0' <= line[i]
        <= '\u{7f}' by {
        if i < 9 {
            assert(line[i] == "HTTP/1.1 "@[i]);
        } else if i < 12 {
            assert(line[i] == d[i - 9]);
            assert(text::is_digit(d[i - 9]));
        } else if i > 12 {
            assert(line[i] == why[i - 13]);
        }
    }
    is_ascii_chars_encode_utf8(line);
    assert forall|j: int| 0 <= j < 8 implies #[trigger] line[j] != ' ' by {
        assert(line[j] == "HTTP/1.1 "@[j]);
    }
    assert(line[8] == ' ');
    text::lemma_find_at(line, ' ', 8);
    let rest = line.skip(9);
    assert forall|j: int| 0 <= j < 3 implies #[trigger] rest[j] != ' ' by {
        assert(rest[j] == d[j]);
        assert(text::is_digit(d[j]));
    }
    assert(rest[3] == ' ');
    text::lemma_find_at(rest, ' ', 3);
    assert(rest.take(3) =~= d);
    assert(text::is_digit(d[0]));
    assert(text::has_prefix(line.take(8), "HTTP/"@)) by {
        assert(line.take(8).take(5) =~= "HTTP/"@);
    }
}

/// Whether the head of a response says how its body is sent: in chunks, or with its length.
pub open spec fn body_announced(r: Reply) -> bool {
    &&& r.sent matches Some(s)
    &&& s.chunked ==> header::field(s.header, "Transfer-Encoding"@) == Some("chunked"@)
    &&& !s.chunked ==> header::field(s.header, "Transfer-Encoding"@) is None && header::field(
        s.header,
        "Content-Length"@,
    ) == Some(text::dec(joined(r.pieces).len()))
}

/// The head of a response that was sent with the fields `es` is read, and its body behind it.
proof fn lemma_body_behind_head(r: Reply, es: Seq<FieldView>, ended: bool, short: Seq<char>) -> (
    at: int)
    requires
        r.sent is Some,
        r.sent->0.header == header::map_of(es),
        plain_fields(es),
        100 <= r.sent->0.status <= 999,
    ensures
        ({
            let s = r.sent->0;
            let buf = response::finished_wire(r);
            let body = response::body_bytes(r.pieces, s.chunked) + if s.chunked {
                encode_utf8("0\r\n\r\n"@)
            } else {
                Seq::<u8>::empty()
            };
            &&& text::stands_at(buf, at, body)
            &&& at + body.len() == buf.len()
            &&& buf.subrange(at, at + body.len()) == body
            &&& parse::response_at(buf, ended, short) == match parse::response_body_at(
                buf,
                at,
                ended,
                short,
                s.header,
            ) {
                BodyProgress::More => ResponseProgress::More,
                BodyProgress::Fault(f) => ResponseProgress::Fault(f),
                BodyProgress::Done(b) => ResponseProgress::Done {
                    status: s.status,
                    header: s.header,
                    body: b,
                },
            }
        }),
{
    let s = r.sent->0;
    let line = status_line(s.status);
    let head = response::header_text(s.header);
    let end = encode_utf8("\r\n"@);
    let last = if s.chunked {
        encode_utf8("0\r\n\r\n"@)
    } else {
        Seq::<u8>::empty()
    };
    let body = response::body_bytes(r.pieces, s.chunked) + last;
    let buf = response::finished_wire(r);
    assert(encode_utf8(response::head_text(s.status, s.header)) == encode_utf8(line) + end
        + encode_utf8(head)) by {
        assert(response::head_text(s.status, s.header) =~= line + "\r\n"@ + head);
        text::lemma_encode_concat(line + "\r\n"@, head);
        text::lemma_encode_concat(line, "\r\n"@);
    }
    assert(buf =~= encode_utf8(line) + end + (encode_utf8(head) + body));
    lemma_status_line(s.status);
    lemma_behind_line(buf, line, es, body, ended);
    encode_utf8(line).len() as int + 2 + encode_utf8(head).len()
}

/// A response that was sent with the fields `es` is read as it was: its status, its fields, and
/// the pieces of its body put together.
pub proof fn law_response_reads_back(
    r: Reply,
    es: Seq<FieldView>,
    ended: bool,
    short: Seq<char>,
)
    requires
        body_announced(r),
        r.sent->0.header == header::map_of(es),
        plain_fields(es),
        100 <= r.sent->0.status <= 999,
        forall|i: int| 0 <= i < r.pieces.len() ==> (#[trigger] r.pieces[i]).len() > 0,
        joined(r.pieces).len() <= MAX_BODY_BYTES,
    ensures
        parse::response_at(response::finished_wire(r), ended, short) == (ResponseProgress::Done {
            status: r.sent->0.status,
            header: r.sent->0.header,
            body: joined(r.pieces),
        }),
{
    let s = r.sent->0;
    let buf = response::finished_wire(r);
    let at = lemma_body_behind_head(r, es, ended, short);
    if s.chunked {
        law_chunks_read_back(buf, at, r.pieces, ended, short);
    } else {
        text::lemma_dec_reads_back(joined(r.pieces).len());
        assert(response::body_bytes(r.pieces, false) + Seq::<u8>::empty() =~= joined(r.pieces));
    }
}

/// A response whose body is too long is refused as bad data, whether it is sent in chunks or with
/// its length.
pub proof fn law_long_response_is_refused(
    r: Reply,
    es: Seq<FieldView>,
    ended: bool,
    short: Seq<char>,
)
    requires
        body_announced(r),
        r.sent->0.header == header::map_of(es),
        plain_fields(es),
        100 <= r.sent->0.status <= 999,
        forall|i: int| 0 <= i < r.pieces.len() ==> 0 < (#[trigger] r.pieces[i]).len() <= i64::MAX,
        joined(r.pieces).len() > MAX_BODY_BYTES,
    ensures
        parse::response_at(response::finished_wire(r), ended, short) matches
            ResponseProgress::Fault(f) && !f.unexpected_eof,
{
    let s = r.sent->0;
    let buf = response::finished_wire(r);
    let at = lemma_body_behind_head(r, es, ended, short);
    if s.chunked {
        text::lemma_stands_apart(
            buf,
            at,
            response::body_bytes(r.pieces, true),
            encode_utf8("0\r\n\r\n"@),
        );
        law_long_body_is_refused(buf, at, r.pieces, ended, short);
    } else {
        text::lemma_dec_reads_back(joined(r.pieces).len());
    }
}

/// The head of a response with nothing in it but that the body is sent in chunks.
pub open spec fn chunked_head() -> Seq<char> {
    "HTTP/1.1 200 OK\r\nTransfer-Encoding: chunked\r\n\r\n"@
}

/// A stream of chunks behind that head.
pub open spec fn chunked_stream(pieces: Seq<Seq<u8>>) -> Seq<u8> {
    encode_utf8(chunked_head()) + response::body_bytes(pieces, true) + encode_utf8("0\r\n\r\n"@)
}

proof fn lemma_chunked_head(es: Seq<FieldView>)
    requires
        es == seq![("Transfer-Encoding"@, seq!["chunked"@])],
    ensures
        plain_fields(es),
        response::head_text(200, header::map_of(es)) == chunked_head(),
        header::field(header::map_of(es), "Transfer-Encoding"@) == Some("chunked"@),
{
    header::lemma_names();
    reveal_strlit("Transfer-Encoding");
    reveal_strlit("chunked");
    reveal_strlit("HTTP/1.1 200 OK\r\nTransfer-Encoding: chunked\r\n\r\n");
    reveal_strlit("HTTP/1.1 ");
    reveal_strlit(" ");
    reveal_strlit("OK");
    reveal_strlit("\r\n");
    reveal_strlit(": ");
    text::lemma_trim_tight("Transfer-Encoding"@);
    text::lemma_trim_tight("chunked"@);
    assert(short_field(es[0]));
    lemma_short_fields(es);
    header::lemma_listing(es);
    let lines = response::field_lines(es, 1);
    assert(response::value_lines(es[0].0, es[0].1, 0) =~= Seq::<char>::empty());
    assert(response::field_lines(es, 0) =~= Seq::<char>::empty());
    assert(response::value_lines(es[0].0, es[0].1, 1) =~= "Transfer-Encoding"@ + ": "@
        + "chunked"@ + "\r\n"@);
    assert(lines =~= "Transfer-Encoding"@ + ": "@ + "chunked"@ + "\r\n"@);
    assert(text::dec(200) =~= seq!['2', '0', '0']) by {
        reveal_with_fuel(text::dec, 3);
    }
    assert(response::head_text(200, header::map_of(es)) =~= chunked_head());
    assert(es.drop_first() =~= Seq::<FieldView>::empty());
    assert(header::map_of(es.drop_first()) =~= Map::<Seq<char>, Seq<Seq<char>>>::empty());
}

/// A stream of chunks, none of them empty, is read as a response with status 200 and the chunks
/// put together; where they are too long it is refused as bad data.
pub proof fn law_chunked_stream_reads_back(pieces: Seq<Seq<u8>>, ended: bool, short: Seq<char>)
    requires
        forall|i: int| 0 <= i < pieces.len() ==> 0 < (#[trigger] pieces[i]).len() <= i64::MAX,
    ensures
        joined(pieces).len() <= MAX_BODY_BYTES ==> (parse::response_at(
            chunked_stream(pieces),
            ended,
            short,
        ) matches ResponseProgress::Done { status, body, .. } && status == 200 && body == joined(
            pieces,
        )),
        joined(pieces).len() > MAX_BODY_BYTES ==> (parse::response_at(
            chunked_stream(pieces),
            ended,
            short,
        ) matches ResponseProgress::Fault(f) && !f.unexpected_eof),
{
    let es = seq![("Transfer-Encoding"@, seq!["chunked"@])];
    lemma_chunked_head(es);
    let h = header::map_of(es);
    let r = Reply { header: h, sent: Some(Sent { status: 200, header: h, chunked: true }), pieces };
    assert(response::finished_wire(r) =~= chunked_stream(pieces));
    if joined(pieces).len() <= MAX_BODY_BYTES {
        law_response_reads_back(r, es, ended, short);
    } else {
        law_long_response_is_refused(r, es, ended, short);
    }
}

} // verus!
