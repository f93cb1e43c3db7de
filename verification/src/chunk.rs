//! Splitting a conversation into overlapping chunks of bounded byte size.
//!
//! All sizes are UTF-8 byte counts, and every cut falls on a character boundary.
use vstd::prelude::*;
use vstd::utf8::*;

use crate::dto::Msg;
use crate::text::{blank, concat3, is_blank, lemma_utf8_ascii_char, lemma_utf8_concat, lemma_utf8_concat3, utf8};

verus! {

broadcast use vstd::utf8::group_utf8_lib;

/// Target size of a chunk, in bytes.
pub const CHUNK_BYTES: usize = 2000;

/// Size of the tail of a chunk that is repeated at the start of the next one, in bytes.
pub const OVERLAP_BYTES: usize = 200;

// ---------------------------------------------------------------------------
// Specification
// ---------------------------------------------------------------------------

/// The byte views of a sequence of strings.
pub open spec fn byte_views(v: Seq<String>) -> Seq<Seq<u8>> {
    v.map_values(|s: String| utf8(s@))
}

/// The first character boundary of `b` at or after `idx`, capped at `b.len()`.
pub open spec fn ceil_boundary_at(b: Seq<u8>, idx: int) -> int
    decreases b.len() - idx,
{
    if idx >= b.len() {
        b.len() as int
    } else if is_char_boundary(b, idx) {
        idx
    } else {
        ceil_boundary_at(b, idx + 1)
    }
}

/// The last `max` bytes of `b` at most, starting on a character boundary.
pub open spec fn byte_tail_of(b: Seq<u8>, max: int) -> Seq<u8> {
    if b.len() <= max {
        b
    } else {
        b.subrange(ceil_boundary_at(b, b.len() - max), b.len() as int)
    }
}

/// The parts of `b` from `start` on: each at most `CHUNK_BYTES` long (rounded up to a
/// boundary), the next one starting `OVERLAP_BYTES` before the end of the previous one.
pub open spec fn split_from(b: Seq<u8>, start: int) -> Seq<Seq<u8>>
    decreases b.len() - start,
{
    if start < 0 || start >= b.len() {
        Seq::empty()
    } else {
        let lim = if b.len() - start > CHUNK_BYTES { start + CHUNK_BYTES } else { b.len() as int };
        let end = ceil_boundary_at(b, lim);
        let part = b.subrange(start, end);
        if end >= b.len() {
            seq![part]
        } else {
            let next = ceil_boundary_at(b, end - OVERLAP_BYTES);
            if next <= start || next > b.len() {
                seq![part]
            } else {
                seq![part] + split_from(b, next)
            }
        }
    }
}

/// A text no longer than `CHUNK_BYTES` stays whole; a longer one is split by [`split_from`].
pub open spec fn split_oversized_of(b: Seq<u8>) -> Seq<Seq<u8>> {
    if b.len() <= CHUNK_BYTES {
        seq![b]
    } else {
        split_from(b, 0)
    }
}

/// A message as it appears in a chunk: `"{role}: {text}"`.
pub open spec fn formatted(m: Msg) -> Seq<char> {
    m.role@ + seq![':', ' '] + m.text@
}

/// The pieces that the chunker consumes, message after message.
pub open spec fn pieces_of(msgs: Seq<Msg>) -> Seq<Seq<u8>>
    decreases msgs.len(),
{
    if msgs.len() == 0 {
        Seq::empty()
    } else {
        pieces_of(msgs.drop_last()) + split_oversized_of(utf8(formatted(msgs.last())))
    }
}

/// The separator between two pieces of a chunk: `"\n\n"`.
pub open spec fn separator() -> Seq<u8> {
    seq![10u8, 10u8]
}

/// One step of the chunker: the finished chunks and the chunk being built, after one piece.
pub open spec fn step(st: (Seq<Seq<u8>>, Seq<u8>), piece: Seq<u8>) -> (Seq<Seq<u8>>, Seq<u8>) {
    let chunks = st.0;
    let cur = st.1;
    let flush = cur.len() > 0 && cur.len() + piece.len() + 2 > CHUNK_BYTES;
    let chunks2 = if flush { chunks.push(cur) } else { chunks };
    let cur2 = if flush { byte_tail_of(cur, OVERLAP_BYTES as int) } else { cur };
    if cur2.len() > 0 {
        (chunks2, cur2 + separator() + piece)
    } else {
        (chunks2, piece)
    }
}

/// The chunker's state after consuming `pieces` in order.
pub open spec fn fold_pieces(pieces: Seq<Seq<u8>>) -> (Seq<Seq<u8>>, Seq<u8>)
    decreases pieces.len(),
{
    if pieces.len() == 0 {
        (Seq::empty(), Seq::empty())
    } else {
        step(fold_pieces(pieces.drop_last()), pieces.last())
    }
}

/// The chunks of a conversation, as bytes: the finished chunks, then the chunk under
/// construction unless it is only whitespace.
pub open spec fn chunks_of(msgs: Seq<Msg>) -> Seq<Seq<u8>> {
    let st = fold_pieces(pieces_of(msgs));
    if blank(decode_utf8(st.1)) {
        st.0
    } else {
        st.0.push(st.1)
    }
}

/// `a` is a prefix of `b`.
pub open spec fn is_prefix(a: Seq<u8>, b: Seq<u8>) -> bool {
    a.len() <= b.len() && b.take(a.len() as int) == a
}

// ---------------------------------------------------------------------------
// Lemmas about boundaries
// ---------------------------------------------------------------------------

/// Properties of [`ceil_boundary_at`].
pub proof fn lemma_ceil(b: Seq<u8>, idx: int)
    requires
        valid_utf8(b),
        0 <= idx,
    ensures
        idx <= b.len() ==> idx <= ceil_boundary_at(b, idx),
        ceil_boundary_at(b, idx) <= b.len(),
        is_char_boundary(b, ceil_boundary_at(b, idx)),
        idx <= b.len() && is_char_boundary(b, idx) ==> ceil_boundary_at(b, idx) == idx,
        (forall|i: int| 0 <= i < b.len() ==> #[trigger] b[i] < 0x80) && idx <= b.len()
            ==> ceil_boundary_at(b, idx) == idx,
    decreases b.len() - idx,
{
    is_char_boundary_start_end_of_seq(b);
    if idx < b.len() {
        is_char_boundary_iff_not_is_continuation_byte(b, idx);
        if !is_char_boundary(b, idx) {
            lemma_ceil(b, idx + 1);
        }
    }
}

/// In a valid UTF-8 sequence, a boundary of the suffix starting at boundary `a` is a
/// boundary of the whole sequence shifted by `a`.
proof fn lemma_boundary_shift(b: Seq<u8>, a: int, x: int)
    requires
        valid_utf8(b),
        0 <= a <= x <= b.len(),
        is_char_boundary(b, a),
        is_char_boundary(b, x),
    ensures
        valid_utf8(b.subrange(a, b.len() as int)),
        is_char_boundary(b.subrange(a, b.len() as int), x - a),
{
    let r = b.subrange(a, b.len() as int);
    valid_utf8_split(b, a);
    is_char_boundary_start_end_of_seq(r);
    if x < b.len() {
        is_char_boundary_iff_not_is_continuation_byte(b, x);
        is_char_boundary_iff_not_is_continuation_byte(r, x - a);
    }
}

/// Bytes of an ASCII character sequence are all below 0x80.
proof fn lemma_ascii_bytes(s: Seq<char>)
    requires
        is_ascii_chars(s),
    ensures
        forall|i: int| 0 <= i < utf8(s).len() ==> #[trigger] utf8(s)[i] < 0x80,
{
    is_ascii_chars_encode_utf8(s);
    assert forall|i: int| 0 <= i < utf8(s).len() implies #[trigger] utf8(s)[i] < 0x80 by {
        assert(utf8(s)[i] == s[i] as u8);
        assert((s[i] as u32) < 0x80);
    }
}

// ---------------------------------------------------------------------------
// Executable functions
// ---------------------------------------------------------------------------

/// The length of `text` in bytes.
pub fn byte_len(text: &str) -> (n: usize)
    ensures
        n == utf8(text@).len(),
{
    text.as_bytes().len()
}

/// The first character boundary of `text` at or after byte `idx`, capped at its length.
pub fn ceil_boundary(text: &str, idx: usize) -> (r: usize)
    ensures
        r == ceil_boundary_at(utf8(text@), idx as int),
{
    let ghost b = utf8(text@);
    let len = byte_len(text);
    let mut i = idx;
    while i < len && !text.is_char_boundary(i)
        invariant
            b == utf8(text@),
            len == b.len(),
            idx <= i,
            ceil_boundary_at(b, idx as int) == ceil_boundary_at(b, i as int),
        decreases len - i,
    {
        i = i + 1;
    }
    if i < len {
        i
    } else {
        len
    }
}

/// The bytes `a..b` of `text`, both on character boundaries.
pub fn byte_slice(text: &str, a: usize, b: usize) -> (res: String)
    requires
        a <= b <= utf8(text@).len(),
        is_char_boundary(utf8(text@), a as int),
        is_char_boundary(utf8(text@), b as int),
    ensures
        utf8(res@) == utf8(text@).subrange(a as int, b as int),
{
    let ghost bytes = utf8(text@);
    proof {
        lemma_boundary_shift(bytes, a as int, b as int);
    }
    let (_, rest) = text.split_at(a);
    assert(utf8(rest@) =~= bytes.subrange(a as int, bytes.len() as int));
    let (mid, _) = rest.split_at(b - a);
    assert(utf8(mid@) =~= bytes.subrange(a as int, b as int));
    mid.to_owned()
}

/// The last `max_bytes` bytes of `text` at most, starting on a character boundary.
pub fn byte_tail(text: &str, max_bytes: usize) -> (res: String)
    ensures
        utf8(res@) == byte_tail_of(utf8(text@), max_bytes as int),
{
    let ghost b = utf8(text@);
    let len = byte_len(text);
    if len <= max_bytes {
        return text.to_owned();
    }
    let start = ceil_boundary(text, len - max_bytes);
    proof {
        lemma_ceil(b, len - max_bytes);
        is_char_boundary_start_end_of_seq(b);
    }
    byte_slice(text, start, len)
}

/// Splits a text longer than `CHUNK_BYTES` into overlapping parts of about that size.
pub fn split_oversized(text: &str) -> (parts: Vec<String>)
    ensures
        byte_views(parts@) == split_oversized_of(utf8(text@)),
{
    let ghost b = utf8(text@);
    let len = byte_len(text);
    if len <= CHUNK_BYTES {
        let parts = vec![text.to_owned()];
        assert(byte_views(parts@) =~= seq![b]);
        return parts;
    }
    let mut parts: Vec<String> = Vec::new();
    let mut start: usize = 0;
    proof {
        is_char_boundary_start_end_of_seq(b);
        assert(byte_views(parts@) + split_from(b, 0) =~= split_from(b, 0));
    }
    while start < len
        invariant_except_break
            b == utf8(text@),
            len == b.len(),
            len > CHUNK_BYTES,
            start <= len,
            is_char_boundary(b, start as int),
            byte_views(parts@) + split_from(b, start as int) == split_from(b, 0),
        ensures
            byte_views(parts@) == split_from(b, 0),
        decreases len - start,
    {
        let lim = if len - start > CHUNK_BYTES {
            start + CHUNK_BYTES
        } else {
            len
        };
        let end = ceil_boundary(text, lim);
        proof {
            lemma_ceil(b, lim as int);
        }
        let part = byte_slice(text, start, end);
        let ghost old_views = byte_views(parts@);
        parts.push(part);
        assert(byte_views(parts@) =~= old_views.push(b.subrange(start as int, end as int)));
        if end == len {
            assert(split_from(b, start as int) == seq![b.subrange(start as int, end as int)]);
            assert(byte_views(parts@) =~= old_views + split_from(b, start as int));
            break;
        }
        let next = ceil_boundary(text, end - OVERLAP_BYTES);
        proof {
            lemma_ceil(b, end - OVERLAP_BYTES);
            assert(split_from(b, start as int) == seq![b.subrange(start as int, end as int)]
                + split_from(b, next as int));
            assert(byte_views(parts@) + split_from(b, next as int) =~= old_views + split_from(
                b,
                start as int,
            ));
        }
        start = next;
    }
    parts
}

/// Splits a conversation into chunks of about `CHUNK_BYTES` bytes. Each message is
/// rendered as `"{role}: {text}"` (split first when longer than `CHUNK_BYTES`); pieces
/// are joined by a blank line, and a chunk that would grow past `CHUNK_BYTES` is closed
/// and the next one starts with its last `OVERLAP_BYTES` bytes.
pub fn chunk_messages(messages: &[Msg]) -> (chunks: Vec<String>)
    ensures
        byte_views(chunks@) == chunks_of(messages@),
        messages@.len() == 0 ==> chunks@.len() == 0,
{
    let mut chunks: Vec<String> = Vec::new();
    let mut current = String::new();
    let ghost sep_chars = seq!['\n', '\n'];
    proof {
        reveal_strlit(": ");
        reveal_strlit("\n\n");
        lemma_utf8_ascii_char('\n');
        lemma_utf8_concat(seq!['\n'], seq!['\n']);
        assert(seq!['\n'] + seq!['\n'] =~= sep_chars);
        assert(utf8(sep_chars) =~= separator());
        assert(messages@.take(0) =~= Seq::<Msg>::empty());
    }
    let n = messages.len();
    for i in 0..n
        invariant
            n == messages@.len(),
            utf8(sep_chars) == separator(),
            "\n\n"@ == sep_chars,
            ": "@ == seq![':', ' '],
            (byte_views(chunks@), utf8(current@)) == fold_pieces(pieces_of(messages@.take(i as int))),
    {
        let m = &messages[i];
        let formatted_msg = concat3(m.role.as_str(), ": ", m.text.as_str());
        let parts = split_oversized(formatted_msg.as_str());
        let ghost before = pieces_of(messages@.take(i as int));
        proof {
            assert(messages@.take(i + 1).drop_last() =~= messages@.take(i as int));
            assert(formatted_msg@ == formatted(messages@[i as int]));
            assert(pieces_of(messages@.take(i + 1)) == before + byte_views(parts@));
            assert(before + byte_views(parts@).take(0) =~= before);
        }
        let np = parts.len();
        for j in 0..np
            invariant
                np == parts@.len(),
                utf8(sep_chars) == separator(),
                "\n\n"@ == sep_chars,
                (byte_views(chunks@), utf8(current@)) == fold_pieces(
                    before + byte_views(parts@).take(j as int),
                ),
        {
            let piece = parts[j].as_str();
            let ghost st = fold_pieces(before + byte_views(parts@).take(j as int));
            let ghost pb = utf8(piece@);
            let cur_len = byte_len(current.as_str());
            let piece_len = byte_len(piece);
            let over = cur_len >= CHUNK_BYTES || piece_len >= CHUNK_BYTES || cur_len + piece_len
                + 2 > CHUNK_BYTES;
            if cur_len > 0 && over {
                let seed = byte_tail(current.as_str(), OVERLAP_BYTES);
                let ghost cv = byte_views(chunks@);
                chunks.push(current);
                assert(byte_views(chunks@) =~= cv.push(st.1));
                current = seed;
            }
            if byte_len(current.as_str()) > 0 {
                proof {
                    lemma_utf8_concat(current@, sep_chars);
                }
                current.append("\n\n");
            }
            proof {
                lemma_utf8_concat(current@, piece@);
            }
            current.append(piece);
            proof {
                let pre = before + byte_views(parts@).take(j as int);
                let post = before + byte_views(parts@).take(j + 1);
                assert(post.drop_last() =~= pre);
                assert(post.last() == pb);
                assert((byte_views(chunks@), utf8(current@)) == step(st, pb));
            }
        }
        proof {
            assert(byte_views(parts@).take(np as int) =~= byte_views(parts@));
        }
    }
    proof {
        assert(messages@.take(n as int) =~= messages@);
        encode_utf8_decode_utf8(current@);
    }
    if !is_blank(current.as_str()) {
        let ghost cv = byte_views(chunks@);
        chunks.push(current);
        assert(byte_views(chunks@) =~= cv.push(utf8(current@)));
    }
    chunks
}

// ---------------------------------------------------------------------------
// Laws
// ---------------------------------------------------------------------------

/// The overlap invariant of a chunker state: each finished chunk starts with the tail of
/// the one before it, and the chunk under construction with the tail of the last one.
pub open spec fn overlap_ok(st: (Seq<Seq<u8>>, Seq<u8>)) -> bool {
    &&& forall|i: int| 0 <= i < st.0.len() - 1 ==> is_prefix(
        byte_tail_of(#[trigger] st.0[i], OVERLAP_BYTES as int),
        st.0[i + 1],
    )
    &&& st.0.len() > 0 ==> is_prefix(byte_tail_of(st.0.last(), OVERLAP_BYTES as int), st.1)
    &&& forall|i: int| 0 <= i < st.0.len() - 1 && byte_tail_of(#[trigger] st.0[i], OVERLAP_BYTES as int).len() > 0
        ==> is_prefix(byte_tail_of(st.0[i], OVERLAP_BYTES as int) + separator(), st.0[i + 1])
    &&& st.0.len() > 0 && byte_tail_of(st.0.last(), OVERLAP_BYTES as int).len() > 0 ==> is_prefix(
        byte_tail_of(st.0.last(), OVERLAP_BYTES as int) + separator(),
        st.1,
    )
}

proof fn lemma_prefix_extend(a: Seq<u8>, b: Seq<u8>, x: Seq<u8>)
    requires
        is_prefix(a, b),
    ensures
        is_prefix(a, b + x),
{
    assert((b + x).take(a.len() as int) =~= b.take(a.len() as int));
}

proof fn lemma_step_overlap(st: (Seq<Seq<u8>>, Seq<u8>), piece: Seq<u8>)
    requires
        overlap_ok(st),
    ensures
        overlap_ok(step(st, piece)),
{
    let chunks = st.0;
    let cur = st.1;
    let flush = cur.len() > 0 && cur.len() + piece.len() + 2 > CHUNK_BYTES;
    let nst = step(st, piece);
    let tail = byte_tail_of(cur, OVERLAP_BYTES as int);
    if flush {
        assert(nst.0 == chunks.push(cur));
        assert forall|i: int| 0 <= i < nst.0.len() - 1 implies is_prefix(
            byte_tail_of(#[trigger] nst.0[i], OVERLAP_BYTES as int),
            nst.0[i + 1],
        ) by {
            if i < chunks.len() - 1 {
                assert(nst.0[i] == chunks[i]);
                assert(nst.0[i + 1] == chunks[i + 1]);
            } else {
                assert(nst.0[i] == chunks.last());
                assert(nst.0[i + 1] == cur);
            }
        }
        assert forall|i: int| 0 <= i < nst.0.len() - 1 && byte_tail_of(#[trigger] nst.0[i], OVERLAP_BYTES as int).len() > 0
            implies is_prefix(byte_tail_of(nst.0[i], OVERLAP_BYTES as int) + separator(), nst.0[i + 1]) by {
            if i < chunks.len() - 1 {
                assert(nst.0[i] == chunks[i]);
                assert(nst.0[i + 1] == chunks[i + 1]);
            } else {
                assert(nst.0[i] == chunks.last());
                assert(nst.0[i + 1] == cur);
            }
        }
        assert(nst.0.last() == cur);
        if tail.len() > 0 {
            assert(is_prefix(tail, tail)) by {
                assert(tail.take(tail.len() as int) =~= tail);
            }
            lemma_prefix_extend(tail, tail, separator() + piece);
            assert(tail + separator() + piece =~= tail + (separator() + piece));
            assert(is_prefix(tail + separator(), tail + separator())) by {
                assert((tail + separator()).take((tail + separator()).len() as int) =~= tail + separator());
            }
            lemma_prefix_extend(tail + separator(), tail + separator(), piece);
        } else {
            assert(piece.take(0) =~= tail);
        }
    } else {
        assert(nst.0 == chunks);
        if chunks.len() > 0 {
            let t = byte_tail_of(chunks.last(), OVERLAP_BYTES as int);
            if cur.len() > 0 {
                lemma_prefix_extend(t, cur, separator() + piece);
                assert(cur + separator() + piece =~= cur + (separator() + piece));
                if t.len() > 0 {
                    lemma_prefix_extend(t + separator(), cur, separator() + piece);
                }
            } else {
                assert(t.len() == 0);
                assert(piece.take(0) =~= t);
            }
        }
    }
}

proof fn lemma_fold_overlap(pieces: Seq<Seq<u8>>)
    ensures
        overlap_ok(fold_pieces(pieces)),
    decreases pieces.len(),
{
    if pieces.len() > 0 {
        lemma_fold_overlap(pieces.drop_last());
        lemma_step_overlap(fold_pieces(pieces.drop_last()), pieces.last());
    }
}

/// Overlap: every chunk after the first starts with the last `OVERLAP_BYTES` bytes (cut
/// at a character boundary) of the chunk before it, followed by the blank line that
/// separates pieces when that tail is not empty.
pub proof fn lemma_chunks_overlap(msgs: Seq<Msg>)
    ensures
        forall|i: int|
            0 <= i < chunks_of(msgs).len() - 1 ==> is_prefix(
                byte_tail_of(#[trigger] chunks_of(msgs)[i], OVERLAP_BYTES as int),
                chunks_of(msgs)[i + 1],
            ),
        forall|i: int|
            0 <= i < chunks_of(msgs).len() - 1 && byte_tail_of(#[trigger] chunks_of(msgs)[i], OVERLAP_BYTES as int).len()
                > 0 ==> is_prefix(
                byte_tail_of(chunks_of(msgs)[i], OVERLAP_BYTES as int) + separator(),
                chunks_of(msgs)[i + 1],
            ),
{
    let st = fold_pieces(pieces_of(msgs));
    lemma_fold_overlap(pieces_of(msgs));
    let c = chunks_of(msgs);
    assert forall|i: int| 0 <= i < c.len() - 1 implies is_prefix(
        byte_tail_of(#[trigger] c[i], OVERLAP_BYTES as int),
        c[i + 1],
    ) by {
        if i < st.0.len() - 1 {
            assert(c[i] == st.0[i]);
            assert(c[i + 1] == st.0[i + 1]);
        } else {
            assert(c == st.0.push(st.1));
            assert(c[i] == st.0.last());
            assert(c[i + 1] == st.1);
        }
    }
    assert forall|i: int| 0 <= i < c.len() - 1 && byte_tail_of(#[trigger] c[i], OVERLAP_BYTES as int).len() > 0
        implies is_prefix(byte_tail_of(c[i], OVERLAP_BYTES as int) + separator(), c[i + 1]) by {
        if i < st.0.len() - 1 {
            assert(c[i] == st.0[i]);
            assert(c[i + 1] == st.0[i + 1]);
        } else {
            assert(c == st.0.push(st.1));
            assert(c[i] == st.0.last());
            assert(c[i + 1] == st.1);
        }
    }
}

/// No messages, no chunks.
pub proof fn lemma_chunks_of_empty()
    ensures
        chunks_of(Seq::<Msg>::empty()).len() == 0,
{
    assert(decode_utf8(Seq::<u8>::empty()) =~= Seq::<char>::empty());
}

/// The tail of a chunk is at most `max` bytes long.
proof fn lemma_byte_tail_len(b: Seq<u8>, max: int)
    requires
        valid_utf8(b),
        0 <= max,
    ensures
        byte_tail_of(b, max).len() <= max,
{
    if b.len() > max {
        lemma_ceil(b, b.len() - max);
    }
}

/// Size bound of the chunker's state, when every piece is at most `CHUNK_BYTES + extra`.
proof fn lemma_fold_bounded(pieces: Seq<Seq<u8>>, extra: int)
    requires
        0 <= extra,
        forall|k: int| 0 <= k < pieces.len() ==> (#[trigger] pieces[k]).len() <= CHUNK_BYTES + extra,
        forall|k: int| 0 <= k < pieces.len() ==> valid_utf8(#[trigger] pieces[k]),
    ensures
        forall|i: int|
            0 <= i < fold_pieces(pieces).0.len() ==> (#[trigger] fold_pieces(pieces).0[i]).len()
                <= CHUNK_BYTES + OVERLAP_BYTES + 2 + extra,
        fold_pieces(pieces).1.len() <= CHUNK_BYTES + OVERLAP_BYTES + 2 + extra,
        valid_utf8(fold_pieces(pieces).1),
    decreases pieces.len(),
{
    if pieces.len() > 0 {
        let pre = pieces.drop_last();
        let piece = pieces.last();
        assert forall|k: int| 0 <= k < pre.len() implies (#[trigger] pre[k]).len() <= CHUNK_BYTES
            + extra && valid_utf8(pre[k]) by {
            assert(pre[k] == pieces[k]);
        }
        lemma_fold_bounded(pre, extra);
        let st = fold_pieces(pre);
        let cur = st.1;
        let flush = cur.len() > 0 && cur.len() + piece.len() + 2 > CHUNK_BYTES;
        let cur2 = if flush { byte_tail_of(cur, OVERLAP_BYTES as int) } else { cur };
        lemma_byte_tail_len(cur, OVERLAP_BYTES as int);
        if flush && cur.len() > OVERLAP_BYTES {
            lemma_ceil(cur, cur.len() - OVERLAP_BYTES);
            valid_utf8_split(cur, ceil_boundary_at(cur, cur.len() - OVERLAP_BYTES));
        }
        assert(valid_utf8(cur2));
        assert(valid_utf8(separator())) by {
            lemma_utf8_ascii_char('\n');
            lemma_utf8_concat(seq!['\n'], seq!['\n']);
            assert(seq!['\n'] + seq!['\n'] =~= seq!['\n', '\n']);
            assert(utf8(seq!['\n', '\n']) =~= separator());
        }
        if cur2.len() > 0 {
            valid_utf8_concat(cur2, separator());
            valid_utf8_concat(cur2 + separator(), piece);
        }
        let nst = fold_pieces(pieces);
        assert(nst == step(st, piece));
        assert forall|i: int| 0 <= i < nst.0.len() implies (#[trigger] nst.0[i]).len()
            <= CHUNK_BYTES + OVERLAP_BYTES + 2 + extra by {
            if i < st.0.len() {
                assert(nst.0[i] == st.0[i]);
            } else {
                assert(nst.0[i] == cur);
            }
        }
    }
}

/// Every part of an all-ASCII text is at most `CHUNK_BYTES` long.
proof fn lemma_split_from_ascii(b: Seq<u8>, start: int)
    requires
        valid_utf8(b),
        forall|i: int| 0 <= i < b.len() ==> #[trigger] b[i] < 0x80,
    ensures
        forall|k: int|
            0 <= k < split_from(b, start).len() ==> (#[trigger] split_from(b, start)[k]).len()
                <= CHUNK_BYTES,
    decreases b.len() - start,
{
    if 0 <= start < b.len() {
        let lim = if b.len() - start > CHUNK_BYTES { start + CHUNK_BYTES } else { b.len() as int };
        lemma_ceil(b, lim);
        let end = ceil_boundary_at(b, lim);
        if end < b.len() {
            let next = ceil_boundary_at(b, end - OVERLAP_BYTES);
            lemma_ceil(b, end - OVERLAP_BYTES);
            lemma_split_from_ascii(b, next);
            let rest = split_from(b, next);
            assert forall|k: int| 0 <= k < split_from(b, start).len() implies (#[trigger] split_from(
                b,
                start,
            )[k]).len() <= CHUNK_BYTES by {
                if k > 0 {
                    assert(split_from(b, start)[k] == rest[k - 1]);
                }
            }
        }
    }
}

/// Every part of any text is valid UTF-8.
proof fn lemma_split_from_valid(b: Seq<u8>, start: int)
    requires
        valid_utf8(b),
        0 <= start <= b.len(),
        is_char_boundary(b, start),
    ensures
        forall|k: int|
            0 <= k < split_from(b, start).len() ==> valid_utf8(#[trigger] split_from(b, start)[k]),
    decreases b.len() - start,
{
    if start < b.len() {
        let lim = if b.len() - start > CHUNK_BYTES { start + CHUNK_BYTES } else { b.len() as int };
        lemma_ceil(b, lim);
        let end = ceil_boundary_at(b, lim);
        lemma_boundary_shift(b, start, end);
        let r = b.subrange(start, b.len() as int);
        valid_utf8_split(r, end - start);
        assert(r.subrange(0, end - start) =~= b.subrange(start, end));
        if end < b.len() {
            let next = ceil_boundary_at(b, end - OVERLAP_BYTES);
            lemma_ceil(b, end - OVERLAP_BYTES);
            lemma_split_from_valid(b, next);
            let rest = split_from(b, next);
            assert forall|k: int| 0 <= k < split_from(b, start).len() implies valid_utf8(
                #[trigger] split_from(b, start)[k],
            ) by {
                if k > 0 {
                    assert(split_from(b, start)[k] == rest[k - 1]);
                }
            }
        }
    }
}

/// The pieces of a conversation are valid UTF-8, and at most `CHUNK_BYTES` long when the
/// conversation is all ASCII.
proof fn lemma_pieces(msgs: Seq<Msg>)
    ensures
        forall|k: int| 0 <= k < pieces_of(msgs).len() ==> valid_utf8(#[trigger] pieces_of(msgs)[k]),
        (forall|j: int|
            0 <= j < msgs.len() ==> is_ascii_chars((#[trigger] msgs[j]).role@) && is_ascii_chars(
                msgs[j].text@,
            )) ==> forall|k: int|
            0 <= k < pieces_of(msgs).len() ==> (#[trigger] pieces_of(msgs)[k]).len() <= CHUNK_BYTES,
    decreases msgs.len(),
{
    if msgs.len() > 0 {
        let pre = msgs.drop_last();
        let m = msgs.last();
        lemma_pieces(pre);
        let b = utf8(formatted(m));
        let parts = split_oversized_of(b);
        is_char_boundary_start_end_of_seq(b);
        lemma_split_from_valid(b, 0);
        let all = pieces_of(msgs);
        assert(all == pieces_of(pre) + parts);
        let ascii = forall|j: int|
            0 <= j < msgs.len() ==> is_ascii_chars((#[trigger] msgs[j]).role@) && is_ascii_chars(
                msgs[j].text@,
            );
        if ascii {
            assert forall|j: int| 0 <= j < pre.len() implies is_ascii_chars(
                (#[trigger] pre[j]).role@,
            ) && is_ascii_chars(pre[j].text@) by {
                assert(pre[j] == msgs[j]);
            }
            assert(is_ascii_chars(msgs[msgs.len() - 1].role@));
            assert(is_ascii_chars(formatted(m))) by {
                let f = formatted(m);
                assert(is_ascii_chars(m.text@));
                assert forall|i: int| 0 <= i < f.len() implies '\0' <= #[trigger] f[i] <= '\u{7f}' by {
                    if i < m.role@.len() {
                        assert(f[i] == m.role@[i]);
                    } else if i >= m.role@.len() + 2 {
                        assert(f[i] == m.text@[i - m.role@.len() - 2]);
                    }
                }
            }
            lemma_ascii_bytes(formatted(m));
            lemma_split_from_ascii(b, 0);
        }
        assert forall|k: int| 0 <= k < all.len() implies valid_utf8(#[trigger] all[k]) && (ascii
            ==> all[k].len() <= CHUNK_BYTES) by {
            if k < pieces_of(pre).len() {
                assert(all[k] == pieces_of(pre)[k]);
            } else {
                assert(all[k] == parts[k - pieces_of(pre).len()]);
            }
        }
    }
}

/// Size bound: when every message is ASCII, no chunk is longer than
/// `CHUNK_BYTES + OVERLAP_BYTES + 2` bytes.
pub proof fn lemma_chunks_bounded_ascii(msgs: Seq<Msg>)
    requires
        forall|j: int|
            0 <= j < msgs.len() ==> is_ascii_chars((#[trigger] msgs[j]).role@) && is_ascii_chars(
                msgs[j].text@,
            ),
    ensures
        forall|i: int|
            0 <= i < chunks_of(msgs).len() ==> (#[trigger] chunks_of(msgs)[i]).len() <= CHUNK_BYTES
                + OVERLAP_BYTES + 2,
{
    lemma_pieces(msgs);
    lemma_fold_bounded(pieces_of(msgs), 0);
    let st = fold_pieces(pieces_of(msgs));
    let c = chunks_of(msgs);
    assert forall|i: int| 0 <= i < c.len() implies (#[trigger] c[i]).len() <= CHUNK_BYTES
        + OVERLAP_BYTES + 2 by {
        if i < st.0.len() {
            assert(c[i] == st.0[i]);
        } else {
            assert(c[i] == st.1);
        }
    }
}

/// A character boundary lies within three bytes after any position of a valid UTF-8
/// sequence (a character takes at most four bytes).
proof fn lemma_boundary_near(b: Seq<u8>, idx: int) -> (j: int)
    requires
        valid_utf8(b),
        0 <= idx <= b.len(),
    ensures
        idx <= j <= idx + 3,
        j <= b.len(),
        is_char_boundary(b, j),
    decreases b.len(),
{
    is_char_boundary_start_end_of_seq(b);
    if idx == 0 {
        0
    } else if idx + 3 >= b.len() {
        b.len() as int
    } else {
        let l = length_of_first_scalar(b);
        let rest = pop_first_scalar(b);
        assert(1 <= l <= 4);
        is_char_boundary_start_end_of_seq(rest);
        if idx <= l {
            assert(is_char_boundary(b, l));
            l
        } else {
            let j2 = lemma_boundary_near(rest, idx - l);
            assert(is_char_boundary(b, l + j2));
            l + j2
        }
    }
}

/// [`ceil_boundary_at`] stops at the first boundary.
proof fn lemma_ceil_le(b: Seq<u8>, idx: int, j: int)
    requires
        valid_utf8(b),
        0 <= idx <= j <= b.len(),
        is_char_boundary(b, j),
    ensures
        ceil_boundary_at(b, idx) <= j,
    decreases j - idx,
{
    if idx < j && idx < b.len() && !is_char_boundary(b, idx) {
        lemma_ceil_le(b, idx + 1, j);
    }
}

/// Every part of any text is at most `CHUNK_BYTES + 3` long.
proof fn lemma_split_from_bounded(b: Seq<u8>, start: int)
    requires
        valid_utf8(b),
    ensures
        forall|k: int|
            0 <= k < split_from(b, start).len() ==> (#[trigger] split_from(b, start)[k]).len()
                <= CHUNK_BYTES + 3,
    decreases b.len() - start,
{
    if 0 <= start < b.len() {
        let lim = if b.len() - start > CHUNK_BYTES { start + CHUNK_BYTES } else { b.len() as int };
        lemma_ceil(b, lim);
        let j = lemma_boundary_near(b, lim);
        lemma_ceil_le(b, lim, j);
        let end = ceil_boundary_at(b, lim);
        if end < b.len() {
            let next = ceil_boundary_at(b, end - OVERLAP_BYTES);
            lemma_ceil(b, end - OVERLAP_BYTES);
            lemma_split_from_bounded(b, next);
            let rest = split_from(b, next);
            assert forall|k: int| 0 <= k < split_from(b, start).len() implies (#[trigger] split_from(
                b,
                start,
            )[k]).len() <= CHUNK_BYTES + 3 by {
                if k > 0 {
                    assert(split_from(b, start)[k] == rest[k - 1]);
                }
            }
        }
    }
}

/// Split law: every part of a text split for size is at most `CHUNK_BYTES + 3` bytes long
/// (a cut is moved forward to the next character boundary, at most three bytes on).
pub proof fn lemma_split_parts_bounded(text: Seq<char>)
    ensures
        forall|k: int|
            0 <= k < split_oversized_of(utf8(text)).len() ==> (#[trigger] split_oversized_of(
                utf8(text),
            )[k]).len() <= CHUNK_BYTES + 3,
{
    let b = utf8(text);
    lemma_split_from_bounded(b, 0);
}

/// Every piece of any conversation is at most `CHUNK_BYTES + 3` long.
proof fn lemma_pieces_bounded(msgs: Seq<Msg>)
    ensures
        forall|k: int|
            0 <= k < pieces_of(msgs).len() ==> (#[trigger] pieces_of(msgs)[k]).len() <= CHUNK_BYTES
                + 3,
    decreases msgs.len(),
{
    if msgs.len() > 0 {
        let pre = msgs.drop_last();
        lemma_pieces_bounded(pre);
        let b = utf8(formatted(msgs.last()));
        lemma_split_from_bounded(b, 0);
        let parts = split_oversized_of(b);
        let all = pieces_of(msgs);
        assert forall|k: int| 0 <= k < all.len() implies (#[trigger] all[k]).len() <= CHUNK_BYTES
            + 3 by {
            if k < pieces_of(pre).len() {
                assert(all[k] == pieces_of(pre)[k]);
            } else {
                assert(all[k] == parts[k - pieces_of(pre).len()]);
            }
        }
    }
}

/// Size bound for any text: no chunk is longer than `CHUNK_BYTES + OVERLAP_BYTES + 5`
/// bytes (the extra three come from rounding a cut up to a character boundary).
pub proof fn lemma_chunks_bounded(msgs: Seq<Msg>)
    ensures
        forall|i: int|
            0 <= i < chunks_of(msgs).len() ==> (#[trigger] chunks_of(msgs)[i]).len() <= CHUNK_BYTES
                + OVERLAP_BYTES + 5,
{
    lemma_pieces(msgs);
    lemma_pieces_bounded(msgs);
    lemma_fold_bounded(pieces_of(msgs), 3);
    let st = fold_pieces(pieces_of(msgs));
    let c = chunks_of(msgs);
    assert forall|i: int| 0 <= i < c.len() implies (#[trigger] c[i]).len() <= CHUNK_BYTES
        + OVERLAP_BYTES + 5 by {
        if i < st.0.len() {
            assert(c[i] == st.0[i]);
        } else {
            assert(c[i] == st.1);
        }
    }
}

} // verus!
