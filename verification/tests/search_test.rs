use truncus::dto::SessionBrief;
use truncus::search::{chunk_ids, note_hit_text, resolve_hits, resolve_note_hits, summary_ids, HitRef};
use truncus::store::{ChunkHydration, NoteHit};

fn ids(v: &[&str]) -> Vec<String> {
    v.iter().map(|s| s.to_string()).collect()
}

fn brief(id: &str) -> SessionBrief {
    SessionBrief { id: id.to_string(), project: "p".to_string(), ended_at: 0, summary: "sum".to_string() }
}

fn chunk(id: &str) -> ChunkHydration {
    ChunkHydration { id: id.to_string(), session_id: "s".to_string(), text: "t".to_string(), project: "p".to_string(), ended_at: 0 }
}

#[test]
fn ids_are_classified() {
    let m = ids(&["a#s", "a#c0", "b#c12", "c#s", "n#n1"]);
    assert_eq!(summary_ids(&m), ids(&["a", "c"]));
    assert_eq!(chunk_ids(&m), ids(&["a#c0", "b#c12"]));
}

#[test]
fn hits_follow_match_order_and_skip_missing() {
    let m = ids(&["b#c1", "a#s", "x#s", "a#c0", "gone#c9"]);
    let summaries = vec![brief("a")];
    let chunks = vec![chunk("a#c0"), chunk("b#c1")];
    assert_eq!(
        resolve_hits(&m, &summaries, &chunks),
        vec![
            HitRef::Chunk { match_index: 0, chunk_index: 1 },
            HitRef::Summary { match_index: 1, brief_index: 0 },
            HitRef::Chunk { match_index: 3, chunk_index: 0 },
        ]
    );
}

fn note_hit(chunk_id: &str) -> NoteHit {
    NoteHit {
        chunk_id: chunk_id.to_string(),
        path: "notes/a.md".to_string(),
        title: "A".to_string(),
        project: "p".to_string(),
        updated_at: 5,
        text: "body".to_string(),
    }
}

#[test]
fn note_hits_pair_matches_with_chunks() {
    let m = ids(&["n#n2", "n#n0", "missing#n0"]);
    let hydrated = vec![note_hit("n#n0"), note_hit("n#n2")];
    assert_eq!(resolve_note_hits(&m, &hydrated), vec![(0, 1), (1, 0)]);
    assert_eq!(note_hit_text(&hydrated[0]), "[A]\nbody");
}
