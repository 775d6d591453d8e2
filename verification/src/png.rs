//! The chunk structure of PNG files, read without decoding pixel data.

use crate::text::{lossy, lossy_text};
use vstd::prelude::*;
use vstd::utf8::{encode_utf8, encode_utf8_decode_utf8, encode_utf8_valid_utf8};

verus! {

/// One chunk: its four type bytes and its body.
#[verifier::ext_equal]
pub struct Chunk {
    pub kind: Seq<u8>,
    pub body: Seq<u8>,
}

/// What the header chunk says.
pub struct Header {
    pub width: u32,
    pub height: u32,
    pub color_type: u8,
}

/// The eight bytes that every PNG file starts with.
pub open spec fn png_signature() -> Seq<u8> {
    seq![0x89u8, 0x50, 0x4e, 0x47, 0x0d, 0x0a, 0x1a, 0x0a]
}

pub open spec fn kind_ihdr() -> Seq<u8> {
    seq![0x49u8, 0x48, 0x44, 0x52]
}

pub open spec fn kind_text() -> Seq<u8> {
    seq![0x74u8, 0x45, 0x58, 0x74]
}

pub open spec fn kind_itxt() -> Seq<u8> {
    seq![0x69u8, 0x54, 0x58, 0x74]
}

pub open spec fn kind_iend() -> Seq<u8> {
    seq![0x49u8, 0x45, 0x4e, 0x44]
}

/// The big-endian number in the four bytes of `b` from `at` on.
pub open spec fn be32(b: Seq<u8>, at: int) -> int {
    b[at] * 0x100_0000 + b[at + 1] * 0x1_0000 + b[at + 2] * 0x100 + b[at + 3]
}

/// Where the body of the chunk at `pos` ends.
pub open spec fn body_end(data: Seq<u8>, pos: int) -> int {
    pos + 8 + be32(data, pos)
}

/// Whether a chunk with its check sum lies whole in `data` at `pos`.
pub open spec fn chunk_fits(data: Seq<u8>, pos: int) -> bool {
    pos + 8 <= data.len() && body_end(data, pos) + 4 <= data.len()
}

/// The chunk at `pos`.
pub open spec fn chunk_at(data: Seq<u8>, pos: int) -> Chunk {
    Chunk {
        kind: data.subrange(pos + 4, pos + 8),
        body: data.subrange(pos + 8, body_end(data, pos)),
    }
}

/// The chunks from `pos` on, up to the end chunk or to the first that is cut
/// short.
pub open spec fn chunks_from(data: Seq<u8>, pos: int) -> Seq<Chunk>
    decreases data.len() - pos,
{
    if 0 <= pos && chunk_fits(data, pos) && chunk_at(data, pos).kind != kind_iend() {
        seq![chunk_at(data, pos)] + chunks_from(data, body_end(data, pos) + 4)
    } else {
        Seq::empty()
    }
}

/// Whether the walk from `pos` on meets a chunk whose end no `usize` can hold.
pub open spec fn walk_overflows(data: Seq<u8>, pos: int) -> bool
    decreases data.len() - pos,
{
    if 0 <= pos && pos + 8 <= data.len() && body_end(data, pos) > usize::MAX {
        true
    } else if 0 <= pos && chunk_fits(data, pos) && chunk_at(data, pos).kind != kind_iend() {
        walk_overflows(data, body_end(data, pos) + 4)
    } else {
        false
    }
}

/// The header after `chunks`: that of the last header chunk of at least ten
/// bytes, or all zero.
pub open spec fn header_of(chunks: Seq<Chunk>) -> Header
    decreases chunks.len(),
{
    if chunks.len() == 0 {
        Header { width: 0, height: 0, color_type: 0 }
    } else {
        let c = chunks.last();
        if c.kind == kind_ihdr() && c.body.len() >= 10 {
            Header {
                width: be32(c.body, 0) as u32,
                height: be32(c.body, 4) as u32,
                color_type: c.body[9],
            }
        } else {
            header_of(chunks.drop_last())
        }
    }
}

/// The index of the first zero byte, or the length where there is none.
pub open spec fn first_zero(b: Seq<u8>) -> int
    decreases b.len(),
{
    if b.len() == 0 || b[0] == 0 {
        0
    } else {
        1 + first_zero(b.skip(1))
    }
}

/// The keyword and text of a `tEXt` body: what stands before and after its
/// first zero byte.
pub open spec fn plain_entry(body: Seq<u8>) -> Option<(Seq<char>, Seq<char>)> {
    let nul = first_zero(body);
    if nul < body.len() {
        Some((lossy(body.take(nul)), lossy(body.skip(nul + 1))))
    } else {
        None
    }
}

/// The keyword and text of an uncompressed `iTXt` body: keyword, zero,
/// compression flag, method, language, zero, translated keyword, zero, text.
pub open spec fn international_entry(body: Seq<u8>) -> Option<(Seq<char>, Seq<char>)> {
    let nul = first_zero(body);
    let rest = body.skip(nul + 1);
    let language = rest.skip(2);
    let translated = language.skip(first_zero(language) + 1);
    if nul < body.len() && rest.len() >= 2 && rest[0] == 0 && first_zero(language) < language.len()
        && first_zero(translated) < translated.len() {
        Some((lossy(body.take(nul)), lossy(translated.skip(first_zero(translated) + 1))))
    } else {
        None
    }
}

/// The keyword and text that a chunk carries.
pub open spec fn entry_of(c: Chunk) -> Option<(Seq<char>, Seq<char>)> {
    if c.kind == kind_text() {
        plain_entry(c.body)
    } else if c.kind == kind_itxt() {
        international_entry(c.body)
    } else {
        None
    }
}

/// The keywords and texts of `chunks`, in their order.
pub open spec fn entries_of(chunks: Seq<Chunk>) -> Seq<(Seq<char>, Seq<char>)>
    decreases chunks.len(),
{
    if chunks.len() == 0 {
        Seq::empty()
    } else {
        let before = entries_of(chunks.drop_last());
        match entry_of(chunks.last()) {
            Some(e) => before.push(e),
            None => before,
        }
    }
}

/// Pairs of texts, each as its characters.
pub open spec fn pair_texts(v: Seq<(String, String)>) -> Seq<(Seq<char>, Seq<char>)> {
    v.map_values(|p: (String, String)| (p.0@, p.1@))
}

/// Whether `data` has the PNG signature and the walk over it stays in range.
pub open spec fn is_png(data: Seq<u8>) -> bool {
    data.len() >= 8 && data.take(8) == png_signature() && !walk_overflows(data, 8)
}

/// The big-endian number in the four bytes of `b` from `at` on.
pub fn read_be32(b: &[u8], at: usize) -> (r: u32)
    requires
        at + 4 <= b@.len(),
    ensures
        r == be32(b@, at as int),
{
    (b[at] as u32) * 0x100_0000 + (b[at + 1] as u32) * 0x1_0000 + (b[at + 2] as u32) * 0x100 + (
    b[at + 3] as u32)
}

/// Whether the four bytes from `at` on are `a b c d`.
fn has_kind(data: &[u8], at: usize, a: u8, b: u8, c: u8, d: u8) -> (r: bool)
    requires
        at + 4 <= data@.len(),
    ensures
        r == (data@.subrange(at as int, at + 4) == seq![a, b, c, d]),
{
    let r = data[at] == a && data[at + 1] == b && data[at + 2] == c && data[at + 3] == d;
    proof {
        let s = data@.subrange(at as int, at + 4);
        if r {
            assert(s == seq![a, b, c, d]);
        } else if s == seq![a, b, c, d] {
            assert(s[0] == a && s[1] == b && s[2] == c && s[3] == d);
        }
    }
    r
}

/// The index of the first zero byte in `from..to`, or `to`.
fn find_zero(data: &[u8], from: usize, to: usize) -> (r: usize)
    requires
        from <= to <= data@.len(),
    ensures
        from <= r <= to,
        r - from == first_zero(data@.subrange(from as int, to as int)),
{
    let ghost whole = data@.subrange(from as int, to as int);
    let mut i: usize = from;
    assert(whole.skip(0) == whole);
    while i < to && data[i] != 0
        invariant
            from <= i <= to <= data@.len(),
            whole == data@.subrange(from as int, to as int),
            first_zero(whole) == (i - from) + first_zero(whole.skip(i - from)),
        decreases to - i,
    {
        assert(whole.skip(i - from)[0] == data@[i as int]);
        assert(whole.skip(i - from).skip(1) == whole.skip(i + 1 - from));
        i += 1;
    }
    proof {
        if i < to {
            assert(whole.skip(i - from)[0] == data@[i as int]);
        }
    }
    i
}

/// The text that the bytes `from..to` hold.
fn text_in(data: &[u8], from: usize, to: usize) -> (r: String)
    requires
        from <= to <= data@.len(),
    ensures
        r@ == lossy(data@.subrange(from as int, to as int)),
{
    lossy_text(vstd::slice::slice_subrange(data, from, to))
}

/// The entry of the `tEXt` body in `from..to`.
fn read_plain(data: &[u8], from: usize, to: usize) -> (r: Option<(String, String)>)
    requires
        from <= to <= data@.len(),
    ensures
        match r {
            Some(e) => plain_entry(data@.subrange(from as int, to as int)) == Some((e.0@, e.1@)),
            None => plain_entry(data@.subrange(from as int, to as int)) is None,
        },
{
    let ghost body = data@.subrange(from as int, to as int);
    let nul = find_zero(data, from, to);
    if nul == to {
        return None;
    }
    assert(body.take(nul - from) == data@.subrange(from as int, nul as int));
    assert(body.skip(nul - from + 1) == data@.subrange(nul + 1, to as int));
    Some((text_in(data, from, nul), text_in(data, nul + 1, to)))
}

/// The entry of the `iTXt` body in `from..to`.
fn read_international(data: &[u8], from: usize, to: usize) -> (r: Option<(String, String)>)
    requires
        from <= to <= data@.len(),
    ensures
        match r {
            Some(e) => international_entry(data@.subrange(from as int, to as int)) == Some(
                (e.0@, e.1@),
            ),
            None => international_entry(data@.subrange(from as int, to as int)) is None,
        },
{
    let ghost body = data@.subrange(from as int, to as int);
    let nul = find_zero(data, from, to);
    if nul == to {
        return None;
    }
    let ghost rest = body.skip(nul - from + 1);
    if to - nul - 1 < 2 || data[nul + 1] != 0 {
        assert(rest.len() < 2 || rest[0] != 0);
        return None;
    }
    let start = nul + 3;
    let ghost language = rest.skip(2);
    assert(language == data@.subrange(start as int, to as int));
    let l1 = find_zero(data, start, to);
    if l1 == to {
        return None;
    }
    let ghost translated = language.skip(l1 - start + 1);
    assert(translated == data@.subrange(l1 + 1, to as int));
    let l2 = find_zero(data, l1 + 1, to);
    if l2 == to {
        return None;
    }
    assert(body.take(nul - from) == data@.subrange(from as int, nul as int));
    assert(translated.skip(first_zero(translated) + 1) == data@.subrange(l2 + 1, to as int));
    Some((text_in(data, from, nul), text_in(data, l2 + 1, to)))
}

/// Walks the chunks of a PNG file without decoding pixel data. Gives width,
/// height, colour type and the keywords with their texts.
pub fn read_png_chunks(data: &[u8]) -> (r: Option<(u32, u32, u8, Vec<(String, String)>)>)
    ensures
        r is Some <==> is_png(data@),
        r matches Some(p) ==> {
            let chunks = chunks_from(data@, 8);
            &&& header_of(chunks) == (Header { width: p.0, height: p.1, color_type: p.2 })
            &&& pair_texts(p.3@) == entries_of(chunks)
        },
{
    if data.len() < 8 {
        return None;
    }
    if !(has_kind(data, 0, 0x89, 0x50, 0x4e, 0x47) && has_kind(data, 4, 0x0d, 0x0a, 0x1a, 0x0a)) {
        proof {
            if data@.take(8) == png_signature() {
                assert forall|i: int| 0 <= i < 8 implies data@[i] == png_signature()[i] by {
                    assert(data@.take(8)[i] == data@[i]);
                }
                assert(data@.subrange(0, 4) == seq![0x89u8, 0x50, 0x4e, 0x47]);
                assert(data@.subrange(4, 8) == seq![0x0du8, 0x0a, 0x1a, 0x0a]);
            }
        }
        return None;
    }
    proof {
        let a = data@.subrange(0, 4);
        let b = data@.subrange(4, 8);
        assert(data@.take(8) == a + b);
        assert(a + b == png_signature());
    }
    let mut w: u32 = 0;
    let mut h: u32 = 0;
    let mut color_type: u8 = 0;
    let mut found: Vec<(String, String)> = Vec::new();
    let mut pos: usize = 8;
    let ghost mut done: Seq<Chunk> = Seq::empty();
    assert(done + chunks_from(data@, 8) == chunks_from(data@, 8));
    assert(pair_texts(found@) == entries_of(done));
    while pos <= data.len() && data.len() - pos >= 8
        invariant_except_break
            8 <= pos <= data@.len(),
            done + chunks_from(data@, pos as int) == chunks_from(data@, 8),
        invariant
            data@.len() >= 8 && data@.take(8) == png_signature(),
            walk_overflows(data@, pos as int) == walk_overflows(data@, 8),
            header_of(done) == (Header { width: w, height: h, color_type: color_type }),
            pair_texts(found@) == entries_of(done),
        ensures
            !walk_overflows(data@, 8),
            done == chunks_from(data@, 8),
        decreases data@.len() - pos,
    {
        let len = read_be32(data, pos) as usize;
        let body_start = pos + 8;
        if len > usize::MAX - body_start {
            return None;
        }
        let end = body_start + len;
        if end > data.len() || data.len() - end < 4 {
            assert(chunks_from(data@, pos as int) == Seq::<Chunk>::empty());
            assert(done + Seq::<Chunk>::empty() == done);
            break;
        }
        let ghost c = chunk_at(data@, pos as int);
        let ghost before = done;
        if has_kind(data, pos + 4, 0x49, 0x45, 0x4e, 0x44) {
            assert(chunks_from(data@, pos as int) == Seq::<Chunk>::empty());
            assert(done + Seq::<Chunk>::empty() == done);
            break;
        }
        proof {
            done = before.push(c);
            assert(done.drop_last() == before);
            assert(before + (seq![c] + chunks_from(data@, end + 4)) == done + chunks_from(
                data@,
                end + 4,
            ));
        }
        if has_kind(data, pos + 4, 0x49, 0x48, 0x44, 0x52) {
            assert(c.kind != kind_text()) by {
                assert(c.kind[0] == 0x49);
            }
            assert(c.kind != kind_itxt()) by {
                assert(c.kind[0] == 0x49);
            }
            if len >= 10 {
                w = read_be32(data, body_start);
                h = read_be32(data, body_start + 4);
                color_type = data[body_start + 9];
                assert(be32(c.body, 0) == be32(data@, body_start as int));
                assert(be32(c.body, 4) == be32(data@, body_start + 4));
            }
        } else if has_kind(data, pos + 4, 0x74, 0x45, 0x58, 0x74) {
            let entry = read_plain(data, body_start, end);
            let ghost old_found = found@;
            if let Some(e) = entry {
                found.push(e);
                assert(pair_texts(found@) == pair_texts(old_found).push((e.0@, e.1@)));
            }
        } else if has_kind(data, pos + 4, 0x69, 0x54, 0x58, 0x74) {
            assert(c.kind != kind_text()) by {
                assert(c.kind[0] == 0x69);
            }
            let entry = read_international(data, body_start, end);
            let ghost old_found = found@;
            if let Some(e) = entry {
                found.push(e);
                assert(pair_texts(found@) == pair_texts(old_found).push((e.0@, e.1@)));
            }
        }
        pos = end + 4;
    }
    Some((w, h, color_type, found))
}

// ---------------------------------------------------------------------------
// What is written can be read back
// ---------------------------------------------------------------------------

/// The four bytes of a number, the highest first.
pub open spec fn be_bytes(n: int) -> Seq<u8> {
    seq![
        (n / 0x100_0000) as u8,
        (n / 0x1_0000 % 0x100) as u8,
        (n / 0x100 % 0x100) as u8,
        (n % 0x100) as u8,
    ]
}

pub proof fn lemma_be_bytes(n: int)
    requires
        0 <= n <= u32::MAX,
    ensures
        be32(be_bytes(n), 0) == n,
{
}

/// The bytes of chunks, one after the other, each with its length in front and a
/// check sum behind.
pub open spec fn written(chunks: Seq<Chunk>, sums: Seq<Seq<u8>>) -> Seq<u8>
    decreases chunks.len(),
{
    if chunks.len() == 0 {
        Seq::empty()
    } else {
        let c = chunks[0];
        be_bytes(c.body.len() as int) + c.kind + c.body + sums[0] + written(
            chunks.skip(1),
            sums.skip(1),
        )
    }
}

/// Whether chunks can be written: their types and check sums have four bytes, their
/// lengths fit, and none ends the file.
pub open spec fn are_writable(chunks: Seq<Chunk>, sums: Seq<Seq<u8>>) -> bool {
    &&& sums.len() == chunks.len()
    &&& forall|i: int|
        0 <= i < chunks.len() ==> {
            &&& (#[trigger] chunks[i]).kind.len() == 4
            &&& chunks[i].kind != kind_iend()
            &&& chunks[i].body.len() <= u32::MAX
            &&& sums[i].len() == 4
        }
}

/// Whether bytes are a chunk that is cut off: too few for any, or fewer than its
/// length says.
pub open spec fn is_cut(tail: Seq<u8>) -> bool {
    tail.len() < 12 || 12 + be32(tail, 0) > tail.len()
}

/// Whether bytes end the walk: a chunk that is cut off, or the end chunk.
pub open spec fn ends_walk(tail: Seq<u8>) -> bool {
    is_cut(tail) || tail.subrange(4, 8) == kind_iend()
}

/// Whether a file with `n` bytes before `tail` fits into memory, and so does the end
/// of the chunk that `tail` starts.
pub open spec fn is_in_range(n: nat, tail: Seq<u8>) -> bool {
    &&& n + tail.len() <= usize::MAX
    &&& tail.len() >= 8 ==> n + 8 + be32(tail, 0) <= usize::MAX
}

/// The chunks of a file are read back as they were written, whatever the check sums
/// are and whatever follows the end chunk or a chunk that is cut off.
pub proof fn law_chunks_are_read_back(chunks: Seq<Chunk>, sums: Seq<Seq<u8>>, tail: Seq<u8>)
    requires
        are_writable(chunks, sums),
        ends_walk(tail),
    ensures
        chunks_from(png_signature() + written(chunks, sums) + tail, 8) == chunks,
        is_in_range((png_signature() + written(chunks, sums)).len(), tail) ==> is_png(
            png_signature() + written(chunks, sums) + tail,
        ),
{
    let data = png_signature() + written(chunks, sums) + tail;
    assert(data.skip(8) =~= written(chunks, sums) + tail);
    assert(data.take(8) =~= png_signature());
    lemma_chunks_from(data, 8, chunks, sums, tail);
}

/// A chunk cut off by the end of the data is ignored: the file reads as it does
/// without it.
pub proof fn law_cut_chunk_is_ignored(chunks: Seq<Chunk>, sums: Seq<Seq<u8>>, tail: Seq<u8>)
    requires
        are_writable(chunks, sums),
        is_cut(tail),
        is_in_range((png_signature() + written(chunks, sums)).len(), tail),
    ensures
        ({
            let whole = png_signature() + written(chunks, sums);
            &&& is_png(whole)
            &&& is_png(whole + tail)
            &&& chunks_from(whole + tail, 8) == chunks_from(whole, 8)
        }),
{
    let whole = png_signature() + written(chunks, sums);
    let none = Seq::<u8>::empty();
    law_chunks_are_read_back(chunks, sums, tail);
    law_chunks_are_read_back(chunks, sums, none);
    assert(whole + none =~= whole);
}

proof fn lemma_chunks_from(
    data: Seq<u8>,
    pos: int,
    chunks: Seq<Chunk>,
    sums: Seq<Seq<u8>>,
    tail: Seq<u8>,
)
    requires
        0 <= pos <= data.len(),
        data.skip(pos) == written(chunks, sums) + tail,
        are_writable(chunks, sums),
        ends_walk(tail),
    ensures
        chunks_from(data, pos) == chunks,
        is_in_range((data.len() - tail.len()) as nat, tail) ==> !walk_overflows(data, pos),
    decreases chunks.len(),
{
    let rest = data.skip(pos);
    assert(rest.len() == written(chunks, sums).len() + tail.len());
    if chunks.len() == 0 {
        assert(rest =~= tail);
        if tail.len() >= 8 {
            assert(data[pos] == tail[0] && data[pos + 1] == tail[1] && data[pos + 2] == tail[2]
                && data[pos + 3] == tail[3]);
            assert(be32(data, pos) == be32(tail, 0));
        }
        if tail.len() >= 12 {
            assert(data.subrange(pos + 4, pos + 8) =~= tail.subrange(4, 8));
        }
        assert(chunks_from(data, pos) =~= chunks);
    } else {
        let c = chunks[0];
        let n = c.body.len() as int;
        let more = written(chunks.skip(1), sums.skip(1));
        lemma_be_bytes(n);
        let head = be_bytes(n);
        assert(rest == head + c.kind + c.body + sums[0] + more + tail);
        assert(rest.subrange(0, 4) =~= head);
        assert(data[pos] == rest[0] && data[pos + 1] == rest[1] && data[pos + 2] == rest[2]
            && data[pos + 3] == rest[3]);
        assert(head[0] == rest.subrange(0, 4)[0] && head[1] == rest.subrange(0, 4)[1] && head[2]
            == rest.subrange(0, 4)[2] && head[3] == rest.subrange(0, 4)[3]);
        assert(be32(data, pos) == n);
        assert(data.subrange(pos + 4, pos + 8) =~= c.kind) by {
            assert(rest.subrange(4, 8) =~= c.kind);
            assert(data.subrange(pos + 4, pos + 8) =~= rest.subrange(4, 8));
        }
        assert(data.subrange(pos + 8, pos + 8 + n) =~= c.body) by {
            assert(rest.subrange(8, 8 + n) =~= c.body);
            assert(data.subrange(pos + 8, pos + 8 + n) =~= rest.subrange(8, 8 + n));
        }
        assert(chunk_fits(data, pos));
        assert(chunk_at(data, pos) =~= c);
        let next = pos + 8 + n + 4;
        assert(data.skip(next) =~= more + tail) by {
            assert(rest.skip(12 + n) =~= more + tail);
            assert(data.skip(next) =~= rest.skip(12 + n));
        }
        assert(are_writable(chunks.skip(1), sums.skip(1))) by {
            assert forall|i: int| 0 <= i < chunks.skip(1).len() implies {
                &&& (#[trigger] chunks.skip(1)[i]).kind.len() == 4
                &&& chunks.skip(1)[i].kind != kind_iend()
                &&& chunks.skip(1)[i].body.len() <= u32::MAX
                &&& sums.skip(1)[i].len() == 4
            } by {
                assert(chunks.skip(1)[i] == chunks[i + 1]);
                assert(sums.skip(1)[i] == sums[i + 1]);
            }
        }
        lemma_chunks_from(data, next, chunks.skip(1), sums.skip(1), tail);
        assert(seq![c] + chunks.skip(1) =~= chunks);
    }
}

// ---------------------------------------------------------------------------
// What chunks say
// ---------------------------------------------------------------------------

proof fn lemma_first_zero(a: Seq<u8>, b: Seq<u8>)
    requires
        !a.contains(0),
    ensures
        first_zero(a + seq![0u8] + b) == a.len(),
    decreases a.len(),
{
    let all = a + seq![0u8] + b;
    if a.len() == 0 {
        assert(all[0] == 0);
    } else {
        assert(a.contains(a[0]));
        assert(all[0] == a[0]);
        let rest = a.skip(1);
        assert(!rest.contains(0)) by {
            if rest.contains(0) {
                let i = choose|i: int| 0 <= i < rest.len() && rest[i] == 0;
                assert(a[i + 1] == 0);
            }
        }
        lemma_first_zero(rest, b);
        assert(all.skip(1) =~= rest + seq![0u8] + b);
    }
}

/// A further text chunk, a keyword, a zero and a text, gives its pair.
pub proof fn law_text_chunk_gives_its_pair(chunks: Seq<Chunk>, key: Seq<char>, text: Seq<char>)
    requires
        !encode_utf8(key).contains(0),
    ensures
        ({
            let c = Chunk {
                kind: seq![0x74u8, 0x45, 0x58, 0x74],
                body: encode_utf8(key) + seq![0u8] + encode_utf8(text),
            };
            &&& entries_of(chunks.push(c)) == entries_of(chunks).push((key, text))
            &&& header_of(chunks.push(c)) == header_of(chunks)
        }),
{
    let a = encode_utf8(key);
    let b = encode_utf8(text);
    let body = a + seq![0u8] + b;
    let c = Chunk { kind: seq![0x74u8, 0x45, 0x58, 0x74], body };
    lemma_first_zero(a, b);
    assert(body.take(a.len() as int) =~= a);
    assert(body.skip(a.len() as int + 1) =~= b);
    encode_utf8_valid_utf8(key);
    encode_utf8_valid_utf8(text);
    encode_utf8_decode_utf8(key);
    encode_utf8_decode_utf8(text);
    assert(chunks.push(c).drop_last() =~= chunks);
    assert(c.kind[0] != kind_ihdr()[0]);
}

/// A further international text chunk gives its keyword and text, where it is not
/// compressed, whatever the language is; and else nothing.
pub proof fn law_international_chunk_gives_its_pair(
    chunks: Seq<Chunk>,
    key: Seq<char>,
    flag: u8,
    method: u8,
    language: Seq<u8>,
    translated: Seq<u8>,
    text: Seq<char>,
)
    requires
        !encode_utf8(key).contains(0),
        !language.contains(0),
        !translated.contains(0),
    ensures
        ({
            let c = Chunk {
                kind: seq![0x69u8, 0x54, 0x58, 0x74],
                body: encode_utf8(key) + seq![0u8] + (seq![flag, method] + (language + seq![0u8] + (
                translated + seq![0u8] + encode_utf8(text)))),
            };
            &&& header_of(chunks.push(c)) == header_of(chunks)
            &&& entries_of(chunks.push(c)) == if flag == 0 {
                entries_of(chunks).push((key, text))
            } else {
                entries_of(chunks)
            }
        }),
{
    let a = encode_utf8(key);
    let last = encode_utf8(text);
    let inner = translated + seq![0u8] + last;
    let middle = language + seq![0u8] + inner;
    let rest = seq![flag, method] + middle;
    let body = a + seq![0u8] + rest;
    let c = Chunk { kind: seq![0x69u8, 0x54, 0x58, 0x74], body };
    lemma_first_zero(a, rest);
    assert(body.take(a.len() as int) =~= a);
    assert(body.skip(a.len() as int + 1) =~= rest);
    assert(rest[0] == flag);
    assert(rest.skip(2) =~= middle);
    lemma_first_zero(language, inner);
    assert(middle.skip(language.len() as int + 1) =~= inner);
    lemma_first_zero(translated, last);
    assert(inner.skip(translated.len() as int + 1) =~= last);
    encode_utf8_valid_utf8(key);
    encode_utf8_valid_utf8(text);
    encode_utf8_decode_utf8(key);
    encode_utf8_decode_utf8(text);
    assert(chunks.push(c).drop_last() =~= chunks);
    assert(c.kind[1] != kind_ihdr()[1]);
    assert(c.kind[0] != kind_text()[0]);
}

/// A header chunk gives the size and the colour type of the image; other chunks leave
/// them, and only text chunks add texts.
pub proof fn law_header_chunk_gives_the_size(
    chunks: Seq<Chunk>,
    width: u32,
    height: u32,
    depth: u8,
    color_type: u8,
    more: Seq<u8>,
    other: Chunk,
)
    ensures
        ({
            let c = Chunk {
                kind: seq![0x49u8, 0x48, 0x44, 0x52],
                body: be_bytes(width as int) + be_bytes(height as int) + seq![depth, color_type]
                    + more,
            };
            &&& header_of(chunks.push(c)) == (Header { width, height, color_type })
            &&& entries_of(chunks.push(c)) == entries_of(chunks)
        }),
        other.kind != seq![0x49u8, 0x48, 0x44, 0x52] ==> header_of(chunks.push(other)) == header_of(
            chunks,
        ),
        other.kind != seq![0x74u8, 0x45, 0x58, 0x74] && other.kind != seq![0x69u8, 0x54, 0x58, 0x74]
            ==> entries_of(chunks.push(other)) == entries_of(chunks),
{
    let w = be_bytes(width as int);
    let h = be_bytes(height as int);
    let body = w + h + seq![depth, color_type] + more;
    let c = Chunk { kind: seq![0x49u8, 0x48, 0x44, 0x52], body };
    lemma_be_bytes(width as int);
    lemma_be_bytes(height as int);
    assert(body[0] == w[0] && body[1] == w[1] && body[2] == w[2] && body[3] == w[3]);
    assert(body[4] == h[0] && body[5] == h[1] && body[6] == h[2] && body[7] == h[3]);
    assert(body[9] == color_type);
    assert(chunks.push(c).drop_last() =~= chunks);
    assert(chunks.push(other).drop_last() =~= chunks);
    assert(c.kind[0] != kind_text()[0]);
    assert(c.kind[0] != kind_itxt()[0]);
}

/// The walk over a file starts with nothing known.
pub proof fn law_no_chunks_say_nothing()
    ensures
        header_of(Seq::<Chunk>::empty()) == (Header { width: 0, height: 0, color_type: 0 }),
        entries_of(Seq::<Chunk>::empty()).len() == 0,
{
}

/// Only what starts with the eight bytes of the signature is read as a PNG file, and
/// the chunk that ends one has the name `IEND`.
pub proof fn law_png_files_start_with_the_signature(data: Seq<u8>)
    ensures
        is_png(data) ==> data.len() >= 8 && data[0] == 0x89 && data[1] == 'P' as u8 && data[2]
            == 'N' as u8 && data[3] == 'G' as u8 && data[4] == 13 && data[5] == 10 && data[6] == 26
            && data[7] == 10,
        png_signature() == seq![0x89u8, 0x50, 0x4e, 0x47, 0x0d, 0x0a, 0x1a, 0x0a],
        kind_iend() == seq!['I' as u8, 'E' as u8, 'N' as u8, 'D' as u8],
{
    if is_png(data) {
        let front = data.take(8);
        assert(front[0] == data[0] && front[1] == data[1] && front[2] == data[2] && front[3]
            == data[3]);
        assert(front[4] == data[4] && front[5] == data[5] && front[6] == data[6] && front[7]
            == data[7]);
    }
    assert(kind_iend() =~= seq!['I' as u8, 'E' as u8, 'N' as u8, 'D' as u8]);
}

} // verus!
