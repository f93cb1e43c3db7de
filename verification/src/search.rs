//! Turning the vector matches of a search into hits: which stored summary, session chunk
//! or note chunk each match stands for.
use vstd::prelude::*;

use crate::dto::SessionBrief;
use crate::pipeline::{chunk_vector_id_of, summary_vector_id_of};
use crate::store::{ChunkHydration, NoteHit};
use crate::text::{concat3, contains_str, contains_text, dec, ends_with, same_text, strip_suffix};

verus! {

/// The session id of a summary vector id (`"{session}#s"`), if it is one.
pub open spec fn summary_session_of(id: Seq<char>) -> Option<Seq<char>> {
    if ends_with(id, "#s"@) {
        Some(id.subrange(0, id.len() - 2))
    } else {
        None
    }
}

/// Whether a vector id names a session chunk (it contains `"#c"`).
pub open spec fn is_chunk_id(id: Seq<char>) -> bool {
    contains_text(id, "#c"@)
}

/// The position of the first of `keys` equal to `key`.
pub open spec fn first_match(keys: Seq<Seq<char>>, key: Seq<char>) -> Option<int>
    decreases keys.len(),
{
    if keys.len() == 0 {
        None
    } else if keys[0] == key {
        Some(0)
    } else {
        match first_match(keys.drop_first(), key) {
            Some(i) => Some(i + 1),
            None => None,
        }
    }
}

/// The session ids of the summary matches, in match order.
pub open spec fn summary_ids_of(ids: Seq<Seq<char>>) -> Seq<Seq<char>>
    decreases ids.len(),
{
    if ids.len() == 0 {
        Seq::empty()
    } else {
        match summary_session_of(ids.last()) {
            Some(s) => summary_ids_of(ids.drop_last()).push(s),
            None => summary_ids_of(ids.drop_last()),
        }
    }
}

/// The chunk matches, in match order.
pub open spec fn chunk_ids_of(ids: Seq<Seq<char>>) -> Seq<Seq<char>>
    decreases ids.len(),
{
    if ids.len() == 0 {
        Seq::empty()
    } else if is_chunk_id(ids.last()) {
        chunk_ids_of(ids.drop_last()).push(ids.last())
    } else {
        chunk_ids_of(ids.drop_last())
    }
}

/// Where a search hit comes from: which match, and which stored summary or chunk.
#[derive(Debug, PartialEq, Eq, Clone, Copy)]
pub enum HitRef {
    Summary { match_index: usize, brief_index: usize },
    Chunk { match_index: usize, chunk_index: usize },
}

/// The hit a match makes: a summary match finds its session's brief, any other match the
/// chunk stored under its id; a match with nothing stored makes no hit.
pub open spec fn hit_ref_of(
    k: int,
    id: Seq<char>,
    brief_ids: Seq<Seq<char>>,
    chunk_ids: Seq<Seq<char>>,
) -> Option<HitRef> {
    match summary_session_of(id) {
        Some(session) => match first_match(brief_ids, session) {
            Some(b) => Some(HitRef::Summary { match_index: k as usize, brief_index: b as usize }),
            None => None,
        },
        None => match first_match(chunk_ids, id) {
            Some(c) => Some(HitRef::Chunk { match_index: k as usize, chunk_index: c as usize }),
            None => None,
        },
    }
}

/// The hits of the matches, in match order.
pub open spec fn hit_refs_of(
    ids: Seq<Seq<char>>,
    brief_ids: Seq<Seq<char>>,
    chunk_ids: Seq<Seq<char>>,
) -> Seq<HitRef>
    decreases ids.len(),
{
    if ids.len() == 0 {
        Seq::empty()
    } else {
        let rest = hit_refs_of(ids.drop_last(), brief_ids, chunk_ids);
        match hit_ref_of(ids.len() - 1, ids.last(), brief_ids, chunk_ids) {
            Some(h) => rest.push(h),
            None => rest,
        }
    }
}

/// The views of a list of strings.
pub open spec fn views(v: Seq<String>) -> Seq<Seq<char>> {
    v.map_values(|s: String| s@)
}

/// The session ids of the summary matches, to look their briefs up.
pub fn summary_ids(match_ids: &[String]) -> (ids: Vec<String>)
    ensures
        views(ids@) == summary_ids_of(views(match_ids@)),
{
    let mut ids: Vec<String> = Vec::new();
    let n = match_ids.len();
    proof {
        assert(views(match_ids@).take(0) =~= Seq::<Seq<char>>::empty());
        assert(views(ids@) =~= Seq::<Seq<char>>::empty());
    }
    for k in 0..n
        invariant
            n == match_ids@.len(),
            views(ids@) == summary_ids_of(views(match_ids@).take(k as int)),
    {
        let ghost all = views(match_ids@);
        assert(all.take(k + 1).drop_last() =~= all.take(k as int));
        assert(all.take(k + 1).last() == match_ids@[k as int]@);
        match strip_suffix(match_ids[k].as_str(), "#s") {
            Some(s) => {
                let ghost before = views(ids@);
                proof {
                    reveal_strlit("#s");
                    let id = match_ids@[k as int]@;
                    assert(s@ =~= id.subrange(0, id.len() - 2));
                }
                ids.push(s);
                assert(views(ids@) =~= before.push(ids@.last()@));
            },
            None => {},
        }
    }
    assert(views(match_ids@).take(n as int) =~= views(match_ids@));
    ids
}

/// The ids of the chunk matches, to look the chunks up.
pub fn chunk_ids(match_ids: &[String]) -> (ids: Vec<String>)
    ensures
        views(ids@) == chunk_ids_of(views(match_ids@)),
{
    let mut ids: Vec<String> = Vec::new();
    let n = match_ids.len();
    proof {
        assert(views(match_ids@).take(0) =~= Seq::<Seq<char>>::empty());
        assert(views(ids@) =~= Seq::<Seq<char>>::empty());
    }
    for k in 0..n
        invariant
            n == match_ids@.len(),
            views(ids@) == chunk_ids_of(views(match_ids@).take(k as int)),
    {
        let ghost all = views(match_ids@);
        assert(all.take(k + 1).drop_last() =~= all.take(k as int));
        assert(all.take(k + 1).last() == match_ids@[k as int]@);
        if contains_str(match_ids[k].as_str(), "#c") {
            let ghost before = views(ids@);
            ids.push(match_ids[k].as_str().to_owned());
            assert(views(ids@) =~= before.push(match_ids@[k as int]@));
        }
    }
    assert(views(match_ids@).take(n as int) =~= views(match_ids@));
    ids
}

/// The position of the first of `keys` equal to `key`.
fn find(keys: &Vec<&str>, key: &str) -> (r: Option<usize>)
    ensures
        match r {
            Some(i) => first_match(keys@.map_values(|s: &str| s@), key@) == Some(i as int),
            None => first_match(keys@.map_values(|s: &str| s@), key@) is None,
        },
{
    let ghost ks = keys@.map_values(|s: &str| s@);
    let mut i: usize = 0;
    assert(ks.subrange(0, ks.len() as int) =~= ks);
    while i < keys.len()
        invariant
            ks == keys@.map_values(|s: &str| s@),
            i <= ks.len(),
            forall|j: int| 0 <= j < i ==> ks[j] != key@,
            first_match(ks, key@) == match first_match(ks.subrange(i as int, ks.len() as int), key@) {
                Some(p) => Some(p + i),
                None => None,
            },
        decreases keys.len() - i,
    {
        let ghost rest = ks.subrange(i as int, ks.len() as int);
        assert(rest.drop_first() =~= ks.subrange(i + 1, ks.len() as int));
        if same_text(keys[i], key) {
            return Some(i);
        }
        i = i + 1;
    }
    None
}

/// The ids of a list of briefs.
pub open spec fn brief_ids(briefs: Seq<SessionBrief>) -> Seq<Seq<char>> {
    briefs.map_values(|b: SessionBrief| b.id@)
}

/// The ids of a list of stored chunks.
pub open spec fn hydration_ids(chunks: Seq<ChunkHydration>) -> Seq<Seq<char>> {
    chunks.map_values(|c: ChunkHydration| c.id@)
}

/// Pairs each match with the stored summary or chunk it stands for, in match order,
/// dropping matches whose record is gone.
pub fn resolve_hits(
    match_ids: &[String],
    summaries: &[SessionBrief],
    chunks: &[ChunkHydration],
) -> (hits: Vec<HitRef>)
    ensures
        hits@ == hit_refs_of(views(match_ids@), brief_ids(summaries@), hydration_ids(chunks@)),
{
    let mut bkeys: Vec<&str> = Vec::new();
    for j in 0..summaries.len()
        invariant
            bkeys@.map_values(|s: &str| s@) == brief_ids(summaries@.take(j as int)),
    {
        bkeys.push(summaries[j].id.as_str());
        assert(brief_ids(summaries@.take(j + 1)) =~= brief_ids(summaries@.take(j as int)).push(summaries@[j as int].id@));
        assert(bkeys@.map_values(|s: &str| s@) =~= brief_ids(summaries@.take(j + 1)));
    }
    assert(summaries@.take(summaries@.len() as int) =~= summaries@);
    let mut ckeys: Vec<&str> = Vec::new();
    for j in 0..chunks.len()
        invariant
            ckeys@.map_values(|s: &str| s@) == hydration_ids(chunks@.take(j as int)),
    {
        ckeys.push(chunks[j].id.as_str());
        assert(hydration_ids(chunks@.take(j + 1)) =~= hydration_ids(chunks@.take(j as int)).push(chunks@[j as int].id@));
        assert(ckeys@.map_values(|s: &str| s@) =~= hydration_ids(chunks@.take(j + 1)));
    }
    assert(chunks@.take(chunks@.len() as int) =~= chunks@);
    let ghost bids = brief_ids(summaries@);
    let ghost cids = hydration_ids(chunks@);
    let mut hits: Vec<HitRef> = Vec::new();
    let n = match_ids.len();
    assert(views(match_ids@).take(0) =~= Seq::<Seq<char>>::empty());
    for k in 0..n
        invariant
            n == match_ids@.len(),
            bkeys@.map_values(|s: &str| s@) == bids,
            ckeys@.map_values(|s: &str| s@) == cids,
            bids == brief_ids(summaries@),
            cids == hydration_ids(chunks@),
            hits@ == hit_refs_of(views(match_ids@).take(k as int), bids, cids),
    {
        let ghost all = views(match_ids@);
        assert(all.take(k + 1).drop_last() =~= all.take(k as int));
        assert(all.take(k + 1).last() == match_ids@[k as int]@);
        let id = match_ids[k].as_str();
        match strip_suffix(id, "#s") {
            Some(session) => {
                proof {
                    reveal_strlit("#s");
                    assert(session@ =~= id@.subrange(0, id@.len() - 2));
                }
                match find(&bkeys, session.as_str()) {
                    Some(b) => {
                        hits.push(HitRef::Summary { match_index: k, brief_index: b });
                    },
                    None => {},
                }
            },
            None => {
                match find(&ckeys, id) {
                    Some(c) => {
                        hits.push(HitRef::Chunk { match_index: k, chunk_index: c });
                    },
                    None => {},
                }
            },
        }
    }
    assert(views(match_ids@).take(n as int) =~= views(match_ids@));
    hits
}

/// The chunk ids of a list of note hits.
pub open spec fn note_chunk_ids(hits: Seq<NoteHit>) -> Seq<Seq<char>> {
    hits.map_values(|h: NoteHit| h.chunk_id@)
}

/// For each match, in order, the position of the stored note chunk with that id; matches
/// with no stored chunk are dropped.
pub open spec fn note_refs_of(ids: Seq<Seq<char>>, chunk_ids: Seq<Seq<char>>) -> Seq<(usize, usize)>
    decreases ids.len(),
{
    if ids.len() == 0 {
        Seq::empty()
    } else {
        let rest = note_refs_of(ids.drop_last(), chunk_ids);
        match first_match(chunk_ids, ids.last()) {
            Some(c) => rest.push(((ids.len() - 1) as usize, c as usize)),
            None => rest,
        }
    }
}

/// Pairs each match with the note chunk stored under its id: (match index, chunk index).
pub fn resolve_note_hits(match_ids: &[String], hydrated: &[NoteHit]) -> (refs: Vec<(usize, usize)>)
    ensures
        refs@ == note_refs_of(views(match_ids@), note_chunk_ids(hydrated@)),
{
    let mut keys: Vec<&str> = Vec::new();
    for j in 0..hydrated.len()
        invariant
            keys@.map_values(|s: &str| s@) == note_chunk_ids(hydrated@.take(j as int)),
    {
        keys.push(hydrated[j].chunk_id.as_str());
        assert(note_chunk_ids(hydrated@.take(j + 1)) =~= note_chunk_ids(hydrated@.take(j as int)).push(hydrated@[j as int].chunk_id@));
        assert(keys@.map_values(|s: &str| s@) =~= note_chunk_ids(hydrated@.take(j + 1)));
    }
    assert(hydrated@.take(hydrated@.len() as int) =~= hydrated@);
    let ghost cids = note_chunk_ids(hydrated@);
    let mut refs: Vec<(usize, usize)> = Vec::new();
    let n = match_ids.len();
    assert(views(match_ids@).take(0) =~= Seq::<Seq<char>>::empty());
    for k in 0..n
        invariant
            n == match_ids@.len(),
            keys@.map_values(|s: &str| s@) == cids,
            cids == note_chunk_ids(hydrated@),
            refs@ == note_refs_of(views(match_ids@).take(k as int), cids),
    {
        let ghost all = views(match_ids@);
        assert(all.take(k + 1).drop_last() =~= all.take(k as int));
        assert(all.take(k + 1).last() == match_ids@[k as int]@);
        match find(&keys, match_ids[k].as_str()) {
            Some(c) => {
                refs.push((k, c));
            },
            None => {},
        }
    }
    assert(views(match_ids@).take(n as int) =~= views(match_ids@));
    refs
}

/// The text of a note hit: `"[{title}]\n{text}"`.
pub fn note_hit_text(hit: &NoteHit) -> (res: String)
    ensures
        res@ == "["@ + hit.title@ + "]\n"@ + hit.text@,
{
    let mut s = concat3("[", hit.title.as_str(), "]\n");
    s.append(hit.text.as_str());
    s
}

/// Identifier law: the search reads back the identifiers that processing writes. A
/// summary id names its session; a chunk id is no summary id and is a chunk id.
pub proof fn lemma_ids_classified(session_id: Seq<char>, seq: nat)
    ensures
        summary_session_of(summary_vector_id_of(session_id)) == Some(session_id),
        summary_session_of(chunk_vector_id_of(session_id, seq)) is None,
        is_chunk_id(chunk_vector_id_of(session_id, seq)),
{
    reveal_strlit("#s");
    reveal_strlit("#c");
    let s = summary_vector_id_of(session_id);
    assert(s.subrange(s.len() - 2, s.len() as int) =~= "#s"@);
    assert(s.subrange(0, s.len() - 2) =~= session_id);
    let c = chunk_vector_id_of(session_id, seq);
    crate::text::lemma_dec_ends_with_digit(seq);
    let d = dec(seq);
    assert(c.last() == d.last());
    assert(c.subrange(c.len() - 2, c.len() as int)[1] == c.last());
    let i = session_id.len() as int;
    assert(c.subrange(i, i + "#c"@.len()) =~= "#c"@);
}

} // verus!
