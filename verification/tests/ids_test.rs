use truncus::notes::{content_hash, fnv, note_id, note_vector_ids, notes_to_remove, reindex_from, stale_vector_ids, tally_indexed, tally_skipped, vector_id};
use truncus::pipeline::{chunk_vector_id, raw_key, record_ids, stale_chunk_ids, summary_vector_id};
use truncus::reflect::{lesson_id, normalize, squash_whitespace, strip_end_punctuation};
use truncus::store::{placeholders, NoteRef};
use truncus::dto::NotesIngestResponse;

#[test]
fn fnv_of_empty_and_single_byte() {
    assert_eq!(fnv(""), "cbf29ce484222325");
    assert_eq!(fnv("a"), "af63dc4c8601ec8c");
}

#[test]
fn note_id_hashes_project_and_path() {
    assert_eq!(note_id("proj", "notes/a.md"), "20f2e81b23396074");
    assert_eq!(note_id("proj", "notes/a.md"), fnv("proj\nnotes/a.md"));
    assert_ne!(note_id("proj", "notes/a.md"), note_id("proj", "notes/b.md"));
}

#[test]
fn content_hash_is_fnv_of_content() {
    assert_eq!(content_hash("hello"), "a430d84680aabd0b");
}

#[test]
fn vector_ids_have_their_shapes() {
    assert_eq!(vector_id("abc", 3), "abc#n3");
    assert_eq!(summary_vector_id("s1"), "s1#s");
    assert_eq!(chunk_vector_id("s1", 12), "s1#c12");
    assert_eq!(raw_key("s1"), "raw/s1.json");
}

#[test]
fn stale_ids_cover_the_dropped_tail() {
    assert_eq!(stale_chunk_ids("s", 5, 3), vec!["s#c3".to_string(), "s#c4".to_string()]);
    assert!(stale_chunk_ids("s", 2, 3).is_empty());
    assert!(stale_chunk_ids("s", -4, 0).is_empty());
    assert_eq!(stale_vector_ids("n", 2, 0), vec!["n#n0".to_string(), "n#n1".to_string()]);
}

#[test]
fn note_vector_ids_list_every_chunk() {
    let note = NoteRef { id: "n".to_string(), path: "p".to_string(), chunk_count: 3 };
    assert_eq!(note_vector_ids(&note), vec!["n#n0".to_string(), "n#n1".to_string(), "n#n2".to_string()]);
    let none = NoteRef { id: "n".to_string(), path: "p".to_string(), chunk_count: -1 };
    assert!(note_vector_ids(&none).is_empty());
}

#[test]
fn record_ids_start_with_the_summary() {
    assert_eq!(
        record_ids("s", &[0, 4]),
        vec!["s#s".to_string(), "s#c0".to_string(), "s#c4".to_string()]
    );
}

#[test]
fn prune_removes_notes_not_kept() {
    let refs = vec![
        NoteRef { id: "1".to_string(), path: "a.md".to_string(), chunk_count: 1 },
        NoteRef { id: "2".to_string(), path: "b.md".to_string(), chunk_count: 1 },
        NoteRef { id: "3".to_string(), path: "c.md".to_string(), chunk_count: 1 },
    ];
    let keep = vec!["b.md".to_string()];
    assert_eq!(notes_to_remove(&refs, &keep), vec![0, 2]);
    assert!(notes_to_remove(&refs, &["a.md".to_string(), "b.md".to_string(), "c.md".to_string()]).is_empty());
}

#[test]
fn placeholders_are_numbered() {
    assert_eq!(placeholders(0), "");
    assert_eq!(placeholders(1), "?1");
    assert_eq!(placeholders(3), "?1, ?2, ?3");
    assert_eq!(placeholders(11).split(", ").last(), Some("?11"));
}

#[test]
fn normalize_squashes_lowercases_and_strips_punctuation() {
    assert_eq!(squash_whitespace("  a \t b\n c  "), "a b c");
    assert_eq!(strip_end_punctuation("done?!."), "done");
    assert_eq!(normalize("Use   Cargo  Check."), "use cargo check");
    assert_eq!(normalize("  Ünïcode   TITLE:  "), "ünïcode title");
}

#[test]
fn lesson_id_hashes_normalized_key() {
    assert_eq!(lesson_id("  MyProj ", "Use   Cargo  Check."), "306bad65aeba4025");
    assert_eq!(lesson_id("MyProj", "use cargo check!"), lesson_id("myproj", "Use Cargo Check"));
    assert_eq!(lesson_id("truncus", "Always run tests"), "0154857981dde870");
}

#[test]
fn reindex_decision_follows_the_stored_hash() {
    assert_eq!(reindex_from(Some(("h1", 4)), "h1"), None);
    assert_eq!(reindex_from(Some(("h1", 4)), "h2"), Some(4));
    assert_eq!(reindex_from(None, "h2"), Some(0));
}

#[test]
fn tallies_count_notes_and_chunks() {
    let mut t = NotesIngestResponse { ingested: 0, skipped: 0, chunks: 0 };
    tally_skipped(&mut t);
    tally_indexed(&mut t, 3);
    tally_indexed(&mut t, 2);
    assert_eq!(t, NotesIngestResponse { ingested: 2, skipped: 1, chunks: 5 });
}
