//! The pure parts of session processing: storage keys, vector identifiers, the text sent
//! for summarisation, and which chunks need new embeddings.
use std::collections::HashMap;

use vstd::prelude::*;
use vstd::utf8::*;

use crate::chunk::{byte_len, byte_slice, ceil_boundary, ceil_boundary_at, formatted, lemma_ceil};
use crate::dto::Msg;
use crate::paging::{batches, batches_of};
use crate::store::SeqText;
use crate::text::{concat, concat3, dec, fmt_u64, join, lemma_join_push, lemma_utf8_concat,
    lemma_utf8_concat3, utf8};

verus! {

broadcast use vstd::utf8::group_utf8_lib, vstd::std_specs::hash::group_hash_axioms;

/// Bytes of the conversation kept from its start when it is too long to summarise whole.
pub const SUMMARY_INPUT_HEAD: usize = 6000;

/// Bytes of the conversation kept from its end when it is too long to summarise whole.
pub const SUMMARY_INPUT_TAIL: usize = 14000;

/// Most vectors sent in one upsert.
pub const UPSERT_BATCH: usize = 500;

/// `"{session_id}#s"`.
pub open spec fn summary_vector_id_of(session_id: Seq<char>) -> Seq<char> {
    session_id + "#s"@
}

/// `"{session_id}#c{seq}"`.
pub open spec fn chunk_vector_id_of(session_id: Seq<char>, seq: nat) -> Seq<char> {
    session_id + "#c"@ + dec(seq)
}

/// `"raw/{session_id}.json"`.
pub open spec fn raw_key_of(session_id: Seq<char>) -> Seq<char> {
    "raw/"@ + session_id + ".json"@
}

/// The vector identifier of a session's summary.
pub fn summary_vector_id(session_id: &str) -> (res: String)
    ensures
        res@ == summary_vector_id_of(session_id@),
{
    concat(session_id, "#s")
}

/// The vector identifier of chunk `seq` of a session.
pub fn chunk_vector_id(session_id: &str, seq: usize) -> (res: String)
    ensures
        res@ == chunk_vector_id_of(session_id@, seq as nat),
{
    let n = fmt_u64(seq as u64);
    concat3(session_id, "#c", n.as_str())
}

/// The storage key of a session's raw payload.
pub fn raw_key(session_id: &str) -> (res: String)
    ensures
        res@ == raw_key_of(session_id@),
{
    concat3("raw/", session_id, ".json")
}

/// The chunk vector identifiers of a session for chunks `from..to` (none when `to <= from`).
pub open spec fn chunk_ids_between(session_id: Seq<char>, from: nat, to: int) -> Seq<Seq<char>> {
    if to <= from {
        Seq::empty()
    } else {
        Seq::new((to - from) as nat, |k: int| chunk_vector_id_of(session_id, (from + k) as nat))
    }
}

/// The chunk vector identifiers left over when a session shrinks from `previous` chunks
/// (negative counts as none) to `current`.
pub fn stale_chunk_ids(session_id: &str, previous: i64, current: usize) -> (ids: Vec<String>)
    ensures
        ids@.map_values(|s: String| s@) == chunk_ids_between(
            session_id@,
            current as nat,
            crate::notes::count_of(previous),
        ),
{
    let mut ids: Vec<String> = Vec::new();
    let end: usize = if previous > 0 {
        previous as usize
    } else {
        0
    };
    if end <= current {
        assert(ids@.map_values(|s: String| s@) =~= chunk_ids_between(
            session_id@,
            current as nat,
            crate::notes::count_of(previous),
        ));
        return ids;
    }
    let mut k: usize = current;
    while k < end
        invariant
            current <= k <= end,
            end == crate::notes::count_of(previous),
            ids@.map_values(|s: String| s@) =~= Seq::new(
                (k - current) as nat,
                |j: int| chunk_vector_id_of(session_id@, (current + j) as nat),
            ),
        decreases end - k,
    {
        let id = chunk_vector_id(session_id, k);
        let ghost before = ids@.map_values(|s: String| s@);
        ids.push(id);
        assert(ids@.map_values(|s: String| s@) =~= before.push(
            chunk_vector_id_of(session_id@, k as nat),
        ));
        k = k + 1;
    }
    ids
}

// ---------------------------------------------------------------------------
// The text sent for summarisation
// ---------------------------------------------------------------------------

/// The whole conversation: each message as `"{role}: {text}"`, separated by blank lines.
pub open spec fn conversation_of(msgs: Seq<Msg>) -> Seq<char> {
    join(msgs.map_values(|m: Msg| formatted(m)), seq!['\n', '\n'])
}

/// The last character boundary of `b` at or before `idx`.
pub open spec fn floor_boundary_at(b: Seq<u8>, idx: int) -> int
    decreases idx,
{
    if idx <= 0 {
        0
    } else if is_char_boundary(b, idx) {
        idx
    } else {
        floor_boundary_at(b, idx - 1)
    }
}

/// The marker that stands for the elided middle of a long conversation.
pub open spec fn elision() -> Seq<char> {
    seq!['\n', '[', '.', '.', '.', ']', '\n']
}

/// The text to summarise, as bytes: the whole conversation when it is at most
/// `SUMMARY_INPUT_HEAD + SUMMARY_INPUT_TAIL` bytes, else its first `SUMMARY_INPUT_HEAD`
/// and last `SUMMARY_INPUT_TAIL` bytes (cut inwards to character boundaries) around
/// `"\n[...]\n"`.
pub open spec fn summary_input_of(msgs: Seq<Msg>) -> Seq<u8> {
    let b = utf8(conversation_of(msgs));
    if b.len() <= SUMMARY_INPUT_HEAD + SUMMARY_INPUT_TAIL {
        b
    } else {
        b.subrange(0, floor_boundary_at(b, SUMMARY_INPUT_HEAD as int)) + utf8(elision()) + b.subrange(
            ceil_boundary_at(b, b.len() - SUMMARY_INPUT_TAIL),
            b.len() as int,
        )
    }
}

proof fn lemma_floor(b: Seq<u8>, idx: int)
    requires
        valid_utf8(b),
        0 <= idx <= b.len(),
    ensures
        0 <= floor_boundary_at(b, idx) <= idx,
        is_char_boundary(b, floor_boundary_at(b, idx)),
    decreases idx,
{
    is_char_boundary_start_end_of_seq(b);
    if idx > 0 && !is_char_boundary(b, idx) {
        lemma_floor(b, idx - 1);
    }
}

/// The last character boundary of `text` at or before byte `idx`; the length of `text` when
/// `idx` lies past its end.
pub fn floor_boundary(text: &str, idx: usize) -> (r: usize)
    ensures
        r == floor_boundary_at(utf8(text@), idx as int),
        idx > utf8(text@).len() ==> r == utf8(text@).len(),
{
    let ghost b = utf8(text@);
    let mut i = idx;
    while i > 0 && !text.is_char_boundary(i)
        invariant
            b == utf8(text@),
            i <= idx,
            floor_boundary_at(b, idx as int) == floor_boundary_at(b, i as int),
        decreases i,
    {
        i = i - 1;
    }
    proof {
        if idx > b.len() {
            lemma_floor_past_end(b, idx as int);
        }
    }
    i
}

/// Past the end of a valid text, the last boundary is its end.
proof fn lemma_floor_past_end(b: Seq<u8>, idx: int)
    requires
        valid_utf8(b),
        idx >= b.len(),
    ensures
        floor_boundary_at(b, idx) == b.len(),
    decreases idx,
{
    is_char_boundary_start_end_of_seq(b);
    if idx > b.len() {
        lemma_floor_past_end(b, idx - 1);
    }
}

/// The conversation as sent for summarisation: whole when short enough, else its head and
/// tail around an elision marker.
pub fn render_conversation(messages: &[Msg]) -> (res: String)
    ensures
        utf8(res@) == summary_input_of(messages@),
{
    let mut full = String::new();
    let ghost sep = seq!['\n', '\n'];
    proof {
        reveal_strlit("\n\n");
        reveal_strlit(": ");
        assert(messages@.take(0).map_values(|m: Msg| formatted(m)) =~= Seq::<Seq<char>>::empty());
    }
    let n = messages.len();
    for i in 0..n
        invariant
            n == messages@.len(),
            sep == seq!['\n', '\n'],
            "\n\n"@ == sep,
            ": "@ == seq![':', ' '],
            full@ == join(messages@.take(i as int).map_values(|m: Msg| formatted(m)), sep),
    {
        let m = &messages[i];
        let ghost parts = messages@.take(i as int).map_values(|m: Msg| formatted(m));
        proof {
            lemma_join_push(parts, sep, formatted(messages@[i as int]));
            assert(messages@.take(i + 1).map_values(|m: Msg| formatted(m)) =~= parts.push(
                formatted(messages@[i as int]),
            ));
        }
        if i > 0 {
            full.append("\n\n");
        }
        full.append(m.role.as_str());
        full.append(": ");
        full.append(m.text.as_str());
        proof {
            if i > 0 {
                assert(full@ =~= join(parts, sep) + sep + formatted(messages@[i as int]));
            } else {
                assert(full@ =~= formatted(messages@[i as int]));
            }
        }
    }
    proof {
        assert(messages@.take(n as int) =~= messages@);
    }
    let ghost b = utf8(full@);
    let len = byte_len(full.as_str());
    if len <= SUMMARY_INPUT_HEAD + SUMMARY_INPUT_TAIL {
        return full;
    }
    let head_end = floor_boundary(full.as_str(), SUMMARY_INPUT_HEAD);
    let tail_start = ceil_boundary(full.as_str(), len - SUMMARY_INPUT_TAIL);
    proof {
        lemma_floor(b, SUMMARY_INPUT_HEAD as int);
        lemma_ceil(b, len - SUMMARY_INPUT_TAIL);
        is_char_boundary_start_end_of_seq(b);
    }
    let head = byte_slice(full.as_str(), 0, head_end);
    let tail = byte_slice(full.as_str(), tail_start, len);
    let res = concat3(head.as_str(), "\n[...]\n", tail.as_str());
    proof {
        reveal_strlit("\n[...]\n");
        assert("\n[...]\n"@ =~= elision());
        lemma_utf8_concat3(head@, elision(), tail@);
    }
    res
}

/// The text sent for summarisation is never longer than
/// `SUMMARY_INPUT_HEAD + SUMMARY_INPUT_TAIL` bytes plus the elision marker.
pub proof fn lemma_summary_input_bounded(msgs: Seq<Msg>)
    ensures
        summary_input_of(msgs).len() <= SUMMARY_INPUT_HEAD + SUMMARY_INPUT_TAIL + 7,
{
    let b = utf8(conversation_of(msgs));
    if b.len() > SUMMARY_INPUT_HEAD + SUMMARY_INPUT_TAIL {
        lemma_floor(b, SUMMARY_INPUT_HEAD as int);
        lemma_ceil(b, b.len() - SUMMARY_INPUT_TAIL);
        let e = elision();
        assert(utf8(e).len() == 7) by {
            is_ascii_chars_encode_utf8(e);
        }
    }
}

// ---------------------------------------------------------------------------
// Which chunks changed
// ---------------------------------------------------------------------------

/// The stored text of each sequence number; a later row for the same number wins.
pub open spec fn stored_texts(rows: Seq<SeqText>) -> Map<i64, Seq<char>>
    decreases rows.len(),
{
    if rows.len() == 0 {
        Map::empty()
    } else {
        stored_texts(rows.drop_last()).insert(rows.last().seq, rows.last().text@)
    }
}

/// Chunk `seq` must be embedded again: nothing is stored under its number, or something
/// else is.
pub open spec fn chunk_changed(rows: Seq<SeqText>, chunks: Seq<String>, seq: int) -> bool {
    let m = stored_texts(rows);
    let key = (seq as usize) as i64;
    !(m.contains_key(key) && m[key] == chunks[seq]@)
}

/// The positions of the chunks whose text differs from what is stored for that position,
/// in increasing order.
pub fn changed_seqs(existing: &[SeqText], chunks: &[String]) -> (res: Vec<usize>)
    ensures
        forall|k: int| 0 <= k < res@.len() ==> (#[trigger] res@[k]) < chunks@.len(),
        forall|a: int, b: int| 0 <= a < b < res@.len() ==> res@[a] < res@[b],
        forall|s: int|
            0 <= s < chunks@.len() ==> (res@.contains(s as usize) <==> chunk_changed(
                existing@,
                chunks@,
                s,
            )),
{
    let mut map: HashMap<i64, String> = HashMap::new();
    let mut r: usize = 0;
    assert(existing@.take(0) =~= Seq::<SeqText>::empty());
    while r < existing.len()
        invariant
            r <= existing@.len(),
            map@.dom() == stored_texts(existing@.take(r as int)).dom(),
            forall|k: i64| #[trigger]
                map@.contains_key(k) ==> map@[k]@ == stored_texts(existing@.take(r as int))[k],
        decreases existing.len() - r,
    {
        let row = &existing[r];
        map.insert(row.seq, row.text.clone());
        assert(existing@.take(r + 1).drop_last() =~= existing@.take(r as int));
        r = r + 1;
    }
    assert(existing@.take(existing@.len() as int) =~= existing@);
    let mut res: Vec<usize> = Vec::new();
    let n = chunks.len();
    for s in 0..n
        invariant
            n == chunks@.len(),
            map@.dom() == stored_texts(existing@).dom(),
            forall|k: i64| #[trigger]
                map@.contains_key(k) ==> map@[k]@ == stored_texts(existing@)[k],
            forall|k: int| 0 <= k < res@.len() ==> (#[trigger] res@[k]) < s,
            forall|a: int, b: int| 0 <= a < b < res@.len() ==> res@[a] < res@[b],
            forall|t: int|
                0 <= t < s ==> (res@.contains(t as usize) <==> chunk_changed(
                    existing@,
                    chunks@,
                    t,
                )),
    {
        let same = match map.get(&(s as i64)) {
            Some(text) => *text == chunks[s],
            None => false,
        };
        let ghost before = res@;
        if !same {
            res.push(s);
        }
        proof {
            assert forall|t: int| 0 <= t < s + 1 implies (res@.contains(t as usize)
                <==> chunk_changed(existing@, chunks@, t)) by {
                if t < s {
                    if res@.contains(t as usize) {
                        let k = choose|k: int| 0 <= k < res@.len() && res@[k] == t as usize;
                        if k < before.len() {
                            assert(before[k] == t as usize);
                        }
                    }
                    if before.contains(t as usize) {
                        let k = choose|k: int| 0 <= k < before.len() && before[k] == t as usize;
                        assert(res@[k] == t as usize);
                    }
                } else {
                    if !same {
                        assert(res@[res@.len() - 1] == s);
                    } else {
                        assert(res@ == before);
                    }
                }
            }
        }
    }
    res
}

/// The texts to embed: the summary first, then each changed chunk in order.
pub fn embedding_texts(summary: &str, chunks: &[String], changed: &[usize]) -> (texts: Vec<String>)
    requires
        forall|k: int| 0 <= k < changed@.len() ==> (#[trigger] changed@[k]) < chunks@.len(),
    ensures
        texts@.len() == changed@.len() + 1,
        texts@[0]@ == summary@,
        forall|k: int| 0 <= k < changed@.len() ==> (#[trigger] texts@[k + 1])@ == chunks@[changed@[k] as int]@,
{
    let mut texts: Vec<String> = Vec::new();
    texts.push(summary.to_owned());
    let n = changed.len();
    for k in 0..n
        invariant
            n == changed@.len(),
            forall|j: int| 0 <= j < changed@.len() ==> (#[trigger] changed@[j]) < chunks@.len(),
            texts@.len() == k + 1,
            texts@[0]@ == summary@,
            forall|j: int| 0 <= j < k ==> (#[trigger] texts@[j + 1])@ == chunks@[changed@[j] as int]@,
    {
        texts.push(chunks[changed[k]].clone());
    }
    texts
}

/// The vector identifiers of the records to upsert: the summary's, then one per changed
/// chunk, in the order of [`embedding_texts`].
pub fn record_ids(session_id: &str, changed: &[usize]) -> (ids: Vec<String>)
    ensures
        ids@.len() == changed@.len() + 1,
        ids@[0]@ == summary_vector_id_of(session_id@),
        forall|k: int| 0 <= k < changed@.len() ==> (#[trigger] ids@[k + 1])@ == chunk_vector_id_of(session_id@, changed@[k] as nat),
{
    let mut ids: Vec<String> = Vec::new();
    ids.push(summary_vector_id(session_id));
    let n = changed.len();
    for k in 0..n
        invariant
            n == changed@.len(),
            ids@.len() == k + 1,
            ids@[0]@ == summary_vector_id_of(session_id@),
            forall|j: int| 0 <= j < k ==> (#[trigger] ids@[j + 1])@ == chunk_vector_id_of(session_id@, changed@[j] as nat),
    {
        ids.push(chunk_vector_id(session_id, changed[k]));
    }
    ids
}

/// Chunk vector ids of one session differ for different positions, so re-embedding one
/// chunk never overwrites another's vector.
pub proof fn lemma_chunk_ids_distinct(session_id: Seq<char>, a: nat, b: nat)
    requires
        chunk_vector_id_of(session_id, a) == chunk_vector_id_of(session_id, b),
    ensures
        a == b,
{
    let p = session_id + "#c"@;
    let x = chunk_vector_id_of(session_id, a);
    assert(x.subrange(p.len() as int, x.len() as int) =~= dec(a));
    let y = chunk_vector_id_of(session_id, b);
    assert(y.subrange(p.len() as int, y.len() as int) =~= dec(b));
    crate::text::lemma_dec_injective(a, b);
}

/// The batches in which `n` vectors are upserted: consecutive ranges of at most
/// [`UPSERT_BATCH`] positions, in order, covering `0..n`.
pub fn upsert_batches(n: usize) -> (r: Vec<(usize, usize)>)
    ensures
        r@ == batches_of(n as nat, UPSERT_BATCH as nat),
{
    batches(n, UPSERT_BATCH)
}

proof fn lemma_stored_positions(rows: Seq<SeqText>, chunks: Seq<String>, i: int)
    requires
        0 <= i <= rows.len(),
        rows.len() == chunks.len(),
        chunks.len() <= i64::MAX,
        forall|k: int| 0 <= k < rows.len() ==> (#[trigger] rows[k]).seq == k && rows[k].text@ == chunks[k]@,
    ensures
        forall|k: i64|
            0 <= k < i ==> #[trigger] stored_texts(rows.take(i)).contains_key(k) && stored_texts(
                rows.take(i),
            )[k] == chunks[k as int]@,
    decreases i,
{
    if i > 0 {
        lemma_stored_positions(rows, chunks, i - 1);
        assert(rows.take(i).drop_last() =~= rows.take(i - 1));
        assert(rows.take(i).last() == rows[i - 1]);
        let m = stored_texts(rows.take(i - 1));
        assert(stored_texts(rows.take(i)) == m.insert(rows[i - 1].seq, rows[i - 1].text@));
        assert(rows[i - 1].seq == i - 1);
        assert forall|k: i64| 0 <= k < i implies #[trigger] stored_texts(rows.take(i)).contains_key(k)
            && stored_texts(rows.take(i))[k] == chunks[k as int]@ by {
            if k < i - 1 {
                assert(m.contains_key(k));
            }
        }
    }
}

/// Re-ingest law: when the stored chunks of a session are the chunks it has now, each at
/// its own position (as replacing them stores them), no chunk is embedded again.
pub proof fn lemma_reingest_unchanged(rows: Seq<SeqText>, chunks: Seq<String>)
    requires
        rows.len() == chunks.len(),
        chunks.len() <= i64::MAX,
        chunks.len() <= usize::MAX,
        forall|k: int| 0 <= k < rows.len() ==> (#[trigger] rows[k]).seq == k && rows[k].text@ == chunks[k]@,
    ensures
        forall|s: int| 0 <= s < chunks.len() ==> !#[trigger] chunk_changed(rows, chunks, s),
{
    lemma_stored_positions(rows, chunks, rows.len() as int);
    assert(rows.take(rows.len() as int) =~= rows);
    assert forall|s: int| 0 <= s < chunks.len() implies !#[trigger] chunk_changed(rows, chunks, s) by {
        let key = (s as usize) as i64;
        assert(key == s);
        assert(stored_texts(rows).contains_key(key));
    }
}

} // verus!
