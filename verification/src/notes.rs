//! Identifiers and bookkeeping for knowledge-base notes.
use vstd::prelude::*;

use crate::dto::NotesIngestResponse;
use crate::store::NoteRef;
use crate::text::{concat3, dec, fmt_hex16, fmt_u64, hex_fixed, same_text, utf8};

verus! {

/// FNV-1a 64-bit offset basis.
pub const FNV_OFFSET: u64 = 0xcbf2_9ce4_8422_2325;

/// FNV-1a 64-bit prime.
pub const FNV_PRIME: u64 = 0x0000_0100_0000_01b3;

/// FNV-1a 64-bit hash of a byte sequence.
pub open spec fn fnv1a(bytes: Seq<u8>) -> u64
    decreases bytes.len(),
{
    if bytes.len() == 0 {
        FNV_OFFSET
    } else {
        (fnv1a(bytes.drop_last()) ^ (bytes.last() as u64)).wrapping_mul(FNV_PRIME)
    }
}

/// The FNV-1a hash of the UTF-8 bytes of `s`, as sixteen lowercase hex digits.
pub open spec fn fnv_hex(s: Seq<char>) -> Seq<char> {
    hex_fixed(fnv1a(utf8(s)) as nat, 16)
}

/// FNV-1a hash of the UTF-8 bytes of `input`, as sixteen lowercase hex digits.
pub fn fnv(input: &str) -> (res: String)
    ensures
        res@ == fnv_hex(input@),
{
    let bytes = input.as_bytes();
    let mut hash: u64 = FNV_OFFSET;
    let mut i: usize = 0;
    assert(bytes@.take(0) =~= Seq::<u8>::empty());
    while i < bytes.len()
        invariant
            bytes@ == utf8(input@),
            i <= bytes@.len(),
            hash == fnv1a(bytes@.take(i as int)),
        decreases bytes.len() - i,
    {
        hash = hash ^ (bytes[i] as u64);
        hash = hash.wrapping_mul(FNV_PRIME);
        assert(bytes@.take(i + 1).drop_last() =~= bytes@.take(i as int));
        i = i + 1;
    }
    assert(bytes@.take(bytes@.len() as int) =~= bytes@);
    fmt_hex16(hash)
}

/// The identifier of a note: the hash of `"{project}\n{path}"`.
pub open spec fn note_id_of(project: Seq<char>, path: Seq<char>) -> Seq<char> {
    fnv_hex(project + seq!['\n'] + path)
}

/// The identifier of a note within a project.
pub fn note_id(project: &str, path: &str) -> (res: String)
    ensures
        res@ == note_id_of(project@, path@),
{
    proof {
        reveal_strlit("\n");
    }
    let key = concat3(project, "\n", path);
    assert(key@ =~= project@ + seq!['\n'] + path@);
    fnv(key.as_str())
}

/// The hash of a note's content, to tell whether it changed.
pub fn content_hash(content: &str) -> (res: String)
    ensures
        res@ == fnv_hex(content@),
{
    fnv(content)
}

/// The identifier of chunk `seq` of a note: `"{note_id}#n{seq}"`.
pub open spec fn vector_id_of(note_id: Seq<char>, seq: nat) -> Seq<char> {
    note_id + "#n"@ + dec(seq)
}

/// The vector identifier of chunk `seq` of a note.
pub fn vector_id(note_id: &str, seq: usize) -> (res: String)
    ensures
        res@ == vector_id_of(note_id@, seq as nat),
{
    let n = fmt_u64(seq as u64);
    concat3(note_id, "#n", n.as_str())
}

/// The vector identifiers of chunks `from..to` of a note (none when `to <= from`).
pub open spec fn vector_ids_between(note_id: Seq<char>, from: nat, to: int) -> Seq<Seq<char>> {
    if to <= from {
        Seq::empty()
    } else {
        Seq::new((to - from) as nat, |k: int| vector_id_of(note_id, (from + k) as nat))
    }
}

/// How many chunks a stored count stands for: negative counts as none, and the count is
/// taken as a `usize`.
pub open spec fn count_of(n: i64) -> int {
    if n > 0 { (n as usize) as int } else { 0 }
}

/// The vector identifiers of chunks `current..previous` of a note: the ones left over when
/// a note shrinks from `previous` chunks (negative counts as none) to `current`.
pub fn stale_vector_ids(note_id: &str, previous: i64, current: usize) -> (ids: Vec<String>)
    ensures
        ids@.map_values(|s: String| s@) == vector_ids_between(note_id@, current as nat, count_of(previous)),
{
    let mut ids: Vec<String> = Vec::new();
    let end: usize = if previous > 0 { previous as usize } else { 0 };
    let mut k: usize = current;
    if end <= current {
        assert(ids@.map_values(|s: String| s@) =~= vector_ids_between(note_id@, current as nat, count_of(previous)));
        return ids;
    }
    while k < end
        invariant
            current <= k <= end,
            end == count_of(previous),
            ids@.map_values(|s: String| s@) =~= Seq::new(
                (k - current) as nat,
                |j: int| vector_id_of(note_id@, (current + j) as nat),
            ),
        decreases end - k,
    {
        let id = vector_id(note_id, k);
        let ghost before = ids@.map_values(|s: String| s@);
        ids.push(id);
        assert(ids@.map_values(|s: String| s@) =~= before.push(vector_id_of(note_id@, k as nat)));
        k = k + 1;
    }
    ids
}

/// The vector identifiers of all chunks of a stored note.
pub fn note_vector_ids(note: &NoteRef) -> (ids: Vec<String>)
    ensures
        ids@.map_values(|s: String| s@) == vector_ids_between(note.id@, 0, count_of(note.chunk_count)),
{
    stale_vector_ids(note.id.as_str(), note.chunk_count, 0)
}

/// Vector ids of one note differ for different chunk positions.
pub proof fn lemma_vector_ids_distinct(note_id: Seq<char>, a: nat, b: nat)
    requires
        vector_id_of(note_id, a) == vector_id_of(note_id, b),
    ensures
        a == b,
{
    let p = note_id + "#n"@;
    let x = vector_id_of(note_id, a);
    assert(x.subrange(p.len() as int, x.len() as int) =~= dec(a));
    let y = vector_id_of(note_id, b);
    assert(y.subrange(p.len() as int, y.len() as int) =~= dec(b));
    crate::text::lemma_dec_injective(a, b);
}

/// Whether `path` is one of `keep`.
pub open spec fn kept(keep: Seq<String>, path: Seq<char>) -> bool {
    exists|j: int| 0 <= j < keep.len() && (#[trigger] keep[j])@ == path
}

fn is_kept(keep: &[String], path: &str) -> (r: bool)
    ensures
        r == kept(keep@, path@),
{
    let mut j: usize = 0;
    while j < keep.len()
        invariant
            j <= keep@.len(),
            forall|k: int| 0 <= k < j ==> (#[trigger] keep@[k])@ != path@,
        decreases keep.len() - j,
    {
        if same_text(keep[j].as_str(), path) {
            return true;
        }
        j = j + 1;
    }
    false
}

/// The positions, in increasing order, of the stored notes whose path is not among the
/// paths to keep: the notes a prune removes.
pub fn notes_to_remove(refs: &[NoteRef], keep: &[String]) -> (idx: Vec<usize>)
    ensures
        forall|k: int| 0 <= k < idx@.len() ==> (#[trigger] idx@[k]) < refs@.len(),
        forall|a: int, b: int| 0 <= a < b < idx@.len() ==> idx@[a] < idx@[b],
        forall|i: int| 0 <= i < refs@.len() ==> (idx@.contains(i as usize) <==> !kept(keep@, refs@[i].path@)),
{
    let mut idx: Vec<usize> = Vec::new();
    let n = refs.len();
    for i in 0..n
        invariant
            n == refs@.len(),
            forall|k: int| 0 <= k < idx@.len() ==> (#[trigger] idx@[k]) < i,
            forall|a: int, b: int| 0 <= a < b < idx@.len() ==> idx@[a] < idx@[b],
            forall|t: int| 0 <= t < i ==> (idx@.contains(t as usize) <==> !kept(keep@, refs@[t].path@)),
    {
        let ghost before = idx@;
        let keep_it = is_kept(keep, refs[i].path.as_str());
        if !keep_it {
            idx.push(i);
        }
        proof {
            assert forall|t: int| 0 <= t < i + 1 implies (idx@.contains(t as usize) <==> !kept(keep@, refs@[t].path@)) by {
                if t < i {
                    if idx@.contains(t as usize) {
                        let k = choose|k: int| 0 <= k < idx@.len() && idx@[k] == t as usize;
                        if k < before.len() {
                            assert(before[k] == t as usize);
                        }
                    }
                    if before.contains(t as usize) {
                        let k = choose|k: int| 0 <= k < before.len() && before[k] == t as usize;
                        assert(idx@[k] == t as usize);
                    }
                } else {
                    if !keep_it {
                        assert(idx@[idx@.len() - 1] == i);
                    } else {
                        assert(idx@ == before);
                    }
                }
            }
        }
    }
    idx
}

/// What an ingest does with a note whose content hashes to `hash`, given the stored hash
/// and chunk count of the note, if it is stored: nothing when the hash is unchanged, else
/// re-index it, replacing the stored chunks (none when it is new).
pub open spec fn reindex_from_of(state: Option<(Seq<char>, i64)>, hash: Seq<char>) -> Option<i64> {
    match state {
        Some((h, count)) => if h == hash {
            None
        } else {
            Some(count)
        },
        None => Some(0),
    }
}

/// Whether a note must be re-indexed, and how many chunks it had: `None` when its stored
/// content hash equals `hash`.
pub fn reindex_from(state: Option<(&str, i64)>, hash: &str) -> (r: Option<i64>)
    ensures
        r == reindex_from_of(
            match state {
                Some((h, c)) => Some((h@, c)),
                None => None,
            },
            hash@,
        ),
{
    match state {
        Some((h, count)) => {
            if same_text(h, hash) {
                None
            } else {
                Some(count)
            }
        },
        None => Some(0),
    }
}

/// Counts one more note left as it was (unchanged, or without content to index).
pub fn tally_skipped(tally: &mut NotesIngestResponse)
    requires
        old(tally).skipped < i64::MAX,
    ensures
        final(tally).ingested == old(tally).ingested,
        final(tally).skipped == old(tally).skipped + 1,
        final(tally).chunks == old(tally).chunks,
{
    tally.skipped = tally.skipped + 1;
}

/// Counts one more note indexed into `chunks` chunks.
pub fn tally_indexed(tally: &mut NotesIngestResponse, chunks: usize)
    requires
        old(tally).ingested < i64::MAX,
        chunks <= i64::MAX,
        old(tally).chunks + chunks <= i64::MAX,
    ensures
        final(tally).ingested == old(tally).ingested + 1,
        final(tally).skipped == old(tally).skipped,
        final(tally).chunks == old(tally).chunks + chunks,
{
    tally.ingested = tally.ingested + 1;
    tally.chunks = tally.chunks + chunks as i64;
}

} // verus!
